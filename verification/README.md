# socket_collection

Message-oriented sockets for the `mio` event loop, with the socket logic verified by Verus.

The sockets frame, queue, prioritise, expire and encrypt messages. Everything a socket decides
on its own lives in the verified library under `src/`:

- `out_queue`: the outgoing queue, one FIFO per priority, with message expiration.
- `framing`: length-delimited frames of a byte stream and the reader that cuts them off.
- `crypto`: the encryption and decryption contexts and what sealing and opening mean.
- `tcp`, `udp`: the read and write state machines of the stream and datagram sockets; the
  system socket is driven from outside, one event at a time.
- `error`, `serialisation`, `clock`, `buf`: errors, binary serialisation, the monotonic clock,
  byte helpers.

The laws that the library promises are public proof functions whose names start with `law_`.

`app/` holds the `mio` sockets themselves (`TcpSock`, `UdpSock`, `Socket`), which perform the
reads and writes that the state machines ask for, and the `safe_crypto` backend that seals and
opens bytes with the keys of a context.
The backend depends on `safe_crypto`, which links the C library libsodium; that crate is not
among the dependencies in `Cargo.toml`, so `app/` compiles only once it is added. The library
itself states what it needs of any backend as `backends_fit`: that opening undoes sealing, and
that a sealed 4 byte length is 52 bytes long.
