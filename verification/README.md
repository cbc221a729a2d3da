# traccar

The core of a GPS tracking server, verified with Verus: cutting device
messages out of a connection's bytes, decoding them into positions (GT06,
H02, OsmAnd, Teltonika), encoding commands for devices, segmenting stored
positions into stops and trips, and the decisions of the periodic tasks.

- `src/` is the library. Every function there carries a contract that Verus
  proves; calls into `bytes`, `chrono`, `serde_json` and `hex` go through a few
  small functions whose contracts are trusted, each documented where it stands.
  Quantities are exact (integer ratios or the decimal text the device sent);
  times are milliseconds since the Unix epoch.
- `app/` is the server around it: the async decoder, encoder, broadcast and
  task interfaces on tokio, JSON forms of positions and events, reports over
  storage, and the floating-point readings of the library's quantities.
- `tests/` runs the library on concrete messages.
