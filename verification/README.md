# SyncBlaze desktop companion

The companion shows the SyncBlaze web app and runs a small relay on the local
network, so that a phone can reach this computer directly and pair with it. It
also signs in with Google through the system browser.

`src/` is the library, written in Verus: every function has a contract, and every
contract is proved, but for those of the five trusted functions named below.

- `wire`: the messages between the relay and its clients, and their JSON text.
- `reader`: what a JSON text stands for, as mathematical values.
- `client`: what a client makes of the texts that the relay sends.
- `group`: the groups of clients under a pairing code, as mathematical values.
- `relay`: who is in which group, and what an event on a socket leads to.
- `url`, `pkce`: percent-encoding, and the proof key of a sign-in.
- `oauth`: the sign-ins that wait for a callback, and the steps of a sign-in.
- `desktop`: what the window and the tray icon do.
- `table`, `text`: a map keyed by strings, and decimal numbers.
- `wire_laws`, `reader_laws`, `message_laws`, `relay_laws`, `url_laws`, `pkce_laws`,
  `oauth_laws`: what holds of several calls together.

Five small functions are trusted, not proved: each calls one function of
`serde_json`, `urlencoding`, `sha2`, `base64` or `rand`, and its doc comment says
what is taken for granted of it.

`app/` is ordinary Rust around the library: the server, the sockets, the HTTP
requests, the window. `tests/` runs the library.
