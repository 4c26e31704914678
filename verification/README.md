# noissh

A remote shell over UDP. Sessions are encrypted with the Noise protocol (pattern
`Noise_XX_25519_ChaChaPoly_BLAKE2s`), survive changes of the client's address, and keep
the screen of the client in step with that of the server instead of replaying a byte
stream. Beside the shell a session carries port forwards, a SOCKS proxy, file copies,
remote commands and a forwarded SSH agent.

The library under `src/` holds the protocol and all decisions. It does no I/O: packets,
keystrokes and output go in as bytes, and packets, screens and actions come out. Functions
state what they do in their contracts, and Verus proves it.

| | |
|---|---|
| `wire`, `control`, `xfer` | the formats of frames and messages |
| `noise`, `handshake`, `transport`, `replay` | keys, handshakes, sealed packets |
| `stream`, `stream_laws`, `mux_laws`, `reassembler`, `input` | reliable streams and input |
| `cell`, `flags`, `grid`, `terminal`, `diff` | the screen and its updates |
| `shell`, `predict`, `tty`, `status` | both ends of a shell, and how it is shown |
| `client`, `requests`, `server`, `server_session` | the two endpoints |
| `forward`, `socks`, `transfer`, `exec` | what streams are used for |
| `auth`, `proto`, `config`, `sshconfig` | keys, trust and settings |
| `args`, `connect`, `daemon`, `ssh`, `login` | the commands, and how sessions begin |
| `text`, `order`, `address`, `error` | texts, addresses and errors |

Proof functions named `law_*` state what holds of several functions together, such as
that a stream delivers what was written to it, or that two sides that exchanged the same
handshake messages have the same keys.

What the library takes from other crates on trust is declared where it is used: `snow` in
`noise`, `vte` in `terminal`, `unicode-width` in `cell`, `base64` in `auth`, `getrandom` in
`transport`.

`app/` is the program around the library: sockets, ptys, files, processes and the
terminal. It runs as `noissh`, `noisshd` or `noissh-keygen`, by the name it is called by.
