# nearclip

LAN-only, end-to-end encrypted clipboard sharing between paired devices.
Devices find each other with mDNS (`_nearclip._tcp.local.`) or by address or
QR code, pair once (X25519 with a commitment, Ed25519-signed transcript, a
6-digit code or a one-time QR token), and then exchange text and files over
direct TCP connections encrypted with AES-256-GCM.

## Layout

- `src/` — the library, verified with Verus: pairing handshake and its
  cryptography, framing of the wire protocol, session keys, sealing of keys at
  rest, the peer, discovery and pairing tables, history, file-transfer
  accounting and checks, file-name rules, the clipboard watcher's decisions,
  and the settings commands. Calls into `aes-gcm`, `hkdf`, `sha2`,
  `x25519-dalek`, `ed25519-dalek`, `base64`, `hex`, `getrandom`, `qrcode`,
  `uuid` and `hostname` go through small trusted wrappers whose contracts
  say what the library relies on.
- `tests/` — tests of the library.
- `app/` — the I/O around it: TCP connections, JSON (de)serialization,
  persistence, the credential store (`keyring`), mDNS (`mdns-sd`) and the
  background tasks; the host platform supplies the clipboard, notifications
  and UI events.

## Main properties proved

- Both sides of an undisturbed pairing derive the same key and code.
- A sealed value opens to what was sealed; a frame reads back as written; an
  encrypted payload decrypts to its plaintext; a sealed key field reads back.
- A QR code shown by a device reads back as that device's id, key, token and
  addresses; a code with no usable address is refused.
- Both ends of a session derive the same session key.
- A QR token is accepted at most once, and only while fresh.
- Received file names are safe (never starting with a dot); a file relayed
  intact is accepted.
- The device list holds every paired device and every fresh unpaired
  discovered device exactly once, each as its tables describe it.
- Text written to the clipboard by the app is never echoed back.
