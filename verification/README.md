# Float Protocols

A bridge between the communication systems of dead zones (Iridium SBD, Inmarsat C,
VSAT, HF/VHF radio, RockBLOCK, Samsara, LoRa) and a cellular uplink. Its logic is
verified with Verus.

- `src/` is the library. It holds the wire formats, the translator, the queues,
  caches and stores, the routing rules of the gateway, the telemetry bundles and
  the command sets of the devices. Contracts state what its functions do, and public
  proof functions state what holds of several of them together: what was encoded is
  read back, what was logged is replayed, emergencies are never dropped.
- `tests/` runs the library with the crates it is linked to.
- `app/` is the program on the gateway's board: serial lines, buses, pins, files,
  processes and tasks around the library.

## Conventions

Time is a parameter in milliseconds. Functions that read the clock say so and have
a companion that takes the time: it ends in `_at`, but for `Message::new`, whose
companion is `Message::new_with_temporal`. Types with private fields or held texts
are specified by views: texts are sequences of characters, messages are
`MessageView`s. Packets of plain numbers are specified by their fields. Numbers that
come as IEEE 754 doubles are held as the 64 bit words that encode them, and `double`
states how doubles are rounded.

What is taken from other crates without proof stands in a few places: shared
buffers in `payload`, checksums and authentication codes in `digest`, compression
in `compress`, queues in `channel`, the shard table in `table`, conversions of text
in `text`, and session keys and certificate requests in `provisioning`.
