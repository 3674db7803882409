# Foundation Lab

Test harnesses for the Passport Prime and for QuantumLink v2, with the rules behind them
verified by Verus.

- `src/` is the library `fl`: TLV and APDU handling and the PIV check, the log follower, the
  descriptor report, the relay's decisions, and the QuantumLink backend (command line, invites,
  state file, frames, the transport's two directions, transfers, and the run as a whole). Every
  function has a contract; the `law_*` proof functions state what holds across functions.
- `app/` is the `fl` command line around it: USB, HID, smart cards, TCP and the QL runtime.
- `tests/` runs the library on concrete values.

What the library takes from other crates stands behind a few trusted functions, each with a
contract and a comment that says what it claims: hexadecimal decoding (`hex`), certificates
(`x509-cert`), P-256 keys and signatures (`p256`), and, from the standard library, lower-casing,
white space and lossy UTF-8.
