# glia

A peer-to-peer game client whose peers keep the same world in step.

`src/` is the library. It holds everything the client decides and computes, and
every function in it is proved against its contract, but for a few that only
call another crate or the standard library. What those promise is believed, not
proved: the calls in `crypto` (digests, keys, sealing), `clock` (the time),
`wire` and `render::layout` (strings), `netting::client_id` (a random byte) and
`render::light` (words as bytes). Each says in its comment what it claims.

- `netting` — identities, the packets of messages, sealed connections, and what
  each datagram does to them
- `framesync`, `simulation`, `rollback` — how far the peers are apart, the worlds
  and actions of the recent past, and why peers end up with the same ones
- `bus`, `tasks`, `system`, `config` — what the client's tasks tell each other
- `world`, `interpolation` — the game's world and its changes
- `render` — devices, buffers, glyphs, lights, models and frames
- `wire`, `crypto`, `clock` — bytes, keys and time

`app/` is the program around it: sockets, channels, the window and the drawing.
`tests/` runs the library.
