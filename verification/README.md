# airwire

Accountless, end-to-end encrypted rooms for the terminal: text, groups, files
and voice, through a local relay, a Cloudflare tunnel or Tor.

The library under `src/` holds everything that is decided without waiting: the
relay's rooms and rate limits, the state of a member and its key exchange, file
transfers, invitations, the screen, the start of Tor and of tunnels. Each
function carries a contract that [Verus](https://github.com/verus-lang/verus)
proves. Names that begin with `law_` are public proofs of what holds of several
functions together.

The program under `app/` owns sockets, files, processes and the terminal. It
asks the library what to do and does it.

## How to read it

- Each message type has a ghost counterpart whose name ends in `View`. Contracts
  speak about messages through it.
- A function that decides by chance says what holds whatever was drawn. The
  function that does the rest takes what was drawn as an argument and has an
  exact contract.
- Functions marked `external_body` call another crate. Their comments say what
  is claimed of it: SHA-256, XChaCha20-Poly1305, SPAKE2, random numbers,
  hexadecimal digits, URLs, media types and the erasure of keys.

## Layout

| Module | What it decides |
|---|---|
| `protocol` | messages, identifiers and room codes |
| `relay` | rooms, members, attempts to join, who receives what |
| `client`, `session` | one member: registration, key exchange, frames |
| `transfer`, `names` | files on their way, and the names they get |
| `crypto` | sealed packets and the key exchange |
| `room` | from end to end: what members get from each other |
| `invite`, `connect`, `launch` | relay addresses, invitations, command lines |
| `tor`, `tor_setup`, `tunnel` | the programs that carry the traffic |
| `tui`, `audio`, `update` | the screen, samples, updates |
| `paths`, `file_url`, `table`, `text` | paths, maps and strings |
