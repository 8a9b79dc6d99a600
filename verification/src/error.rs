//! The error type shared by every module of the library.

use vstd::prelude::*;

verus! {

/// Why an operation failed.
#[derive(Debug)]
pub enum AppError {
    /// A message meant for the user, shown as is.
    Msg(String),
    /// A cryptographic check failed (bad signature, failed decryption, ...).
    Crypto,
    /// The sender is not paired with this device.
    UnknownPeer,
    /// The device cannot be reached on the local network.
    DeviceUnavailable,
    /// The other side broke the protocol.
    Protocol(String),
    /// An error frame the other device sent, e.g. `too_large`.
    Remote { code: String, msg: String },
    /// An operation took too long.
    Timeout,
    /// One of the users declined the pairing.
    PairingRejected,
}

impl AppError {
    /// A user-facing message error.
    pub fn msg(s: &str) -> (e: AppError)
        ensures
            e matches AppError::Msg(m) && m@ == s@,
    {
        AppError::Msg(String::from_str(s))
    }

    /// A protocol error carrying `s` as its detail.
    pub fn protocol(s: &str) -> (e: AppError)
        ensures
            e matches AppError::Protocol(m) && m@ == s@,
    {
        AppError::Protocol(String::from_str(s))
    }

    /// A protocol error with detail `m`.
    pub open spec fn is_protocol_msg(self, m: Seq<char>) -> bool {
        self matches AppError::Protocol(x) && x@ == m
    }

    /// A user-facing message error with text `m`.
    pub open spec fn is_msg(self, m: Seq<char>) -> bool {
        self matches AppError::Msg(x) && x@ == m
    }

    /// The text shown to the user for this error.
    pub open spec fn spec_message(self) -> Seq<char> {
        match self {
            AppError::Msg(m) => m@,
            AppError::Crypto => "Cryptographic verification failed"@,
            AppError::UnknownPeer => "Unknown peer: this device is not paired with the sender"@,
            AppError::DeviceUnavailable => "Device is not reachable on the local network"@,
            AppError::Protocol(m) => "Protocol error: "@ + m@,
            AppError::Remote { code, msg } => msg@ + " ("@ + code@ + ")"@,
            AppError::Timeout => "Operation timed out"@,
            AppError::PairingRejected => "Pairing was rejected"@,
        }
    }

    /// The text shown to the user for this error.
    pub fn message(&self) -> (s: String)
        ensures
            s@ == self.spec_message(),
    {
        match self {
            AppError::Msg(m) => m.clone(),
            AppError::Crypto => String::from_str("Cryptographic verification failed"),
            AppError::UnknownPeer => String::from_str(
                "Unknown peer: this device is not paired with the sender",
            ),
            AppError::DeviceUnavailable => String::from_str(
                "Device is not reachable on the local network",
            ),
            AppError::Protocol(m) => {
                let mut s = String::from_str("Protocol error: ");
                s.append(m.as_str());
                s
            },
            AppError::Remote { code, msg } => {
                let mut s = msg.clone();
                s.append(" (");
                s.append(code.as_str());
                s.append(")");
                s
            },
            AppError::Timeout => String::from_str("Operation timed out"),
            AppError::PairingRejected => String::from_str("Pairing was rejected"),
        }
    }
}

} // verus!
