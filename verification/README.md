# quic-pair

A simulated network between two QUIC endpoints, verified with Verus.

A client and a server are joined by a link with a fixed one-way latency and run
by a virtual clock. The library keeps the timers, the queues and the clock. It is
told what the protocol endpoints ask for (`Event`) and says what is to be done
next (`Action`); it does no input or output itself.

- `src/proto.rs`: the values that pass between an endpoint and the simulation.
- `src/endpoint.rs`: the timers and queues of one endpoint.
- `src/pair.rs`: the pair, the link, and the transitions of a step.
- `src/packet.rs`: header form, spin bit, version negotiation.
- `src/config.rs`: settings, certificates, keys and trust anchors.
- `src/ports.rs`, `src/log.rs`: ports of successive pairs, text of log records.
- `src/laws.rs`, `src/run.rs`: what holds of endpoints, of single transitions,
  and all along a run: the link loses, alters and reorders nothing, deliveries are
  handed over when they arrive, the clock never goes back, and a pair that is not
  idle always has something to do.
- `app/`: performs the actions on real endpoints and sockets, and the scenarios
  that an implementation of the protocol has to pass. The implementation is
  supplied through a trait.

`cc` is held at a version that the build script of `ring` 0.14 compiles with.
