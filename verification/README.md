# MeshMessenger

A client of a messenger with end-to-end encryption: X25519 agreement, SHA-256
of the shared secret as the key, AES-256-GCM under it. The keys of peers are
trusted on first use.

- `src/` is the library, verified with Verus. `text` and `table` hold the
  models of texts and of tables of names; `primitives` is where the
  cryptographic crates are called, and where what is claimed of them stands;
  `crypto`, `proto` and `inbox` are the encryption, the frames and what goes
  into them; `peers` and `store` keep keys and fingerprints; `events`, `server`,
  `net` and `console` are the two clients' side of the connection; `chat`,
  `chats`, `client`, `actions`, `view`, `look` and `config` are what the user
  sees and does.
- `app/` is the program around it: sockets, files, threads, the window, the
  console. Started with the argument `console` it runs without a window.
- `tests/` runs the library.

The icon in the notification area is for Windows, and takes the crates
`tray-icon` and `muda` besides those in `Cargo.toml`.
