# rustadmin_transport

The transport of a remote-desktop program: what its two ends say to each other over QUIC and
TCP, written in Rust and verified with Verus.

* `src/` is the library. Every function of it states in `requires` and `ensures` what it does,
  over views and spec functions, and Verus proves it. It holds no sockets, files, clocks or
  tasks: bytes come in, bytes and decisions go out.
  * `transport/protocol.rs`, `reliable.rs`, `datagram.rs`: packets, streams and datagrams.
  * `transport/video_datagram.rs`, `audio_datagram.rs`, `input.rs`: video, audio and input.
  * `transport/session.rs`, `quic.rs`, `pairing.rs`, `identity.rs`: how two ends agree on a
    session, and how each knows the other.
  * `transport/application.rs`: which message travels how, and in which order.
  * `transport/clipboard.rs`, `file_transfer.rs`, `configuration.rs`, `adaptation.rs`,
    `recovery.rs`, `statistics.rs`: the rest of the transport.
  * `tcp.rs`, `stream.rs`: framed, encrypted TCP streams, and streams written in the background.
  * `outside.rs`: the calls into other crates (hashing, signatures, encryption, base64), with
    what is believed of each.
* `tests/` runs the library.
* `app/` is ordinary Rust around it: sockets, QUIC endpoints, tasks, files and clocks.

The laws of the library, which relate several of its functions, are the public `lemma_`
functions: that what is sent is what is received, that nothing is received twice, that video
waits for what it depends on, and others.
