# spaceball_rs

Packet decoding for the Spaceball 1003/2003/3003 and SpaceOrb 360
six-degrees-of-freedom controllers, verified with Verus.

- `src/` is the verified library. It turns the bytes read from a device's
  serial line into packets and events, one read at a time, and decides what
  to do during device probing:
  - `stream`: the reads a packet reader takes in (`ReadEvent`) and what it
    reports (`StreamStep`, `RawPacket`).
  - `spaceball`: Spaceball packets (`parse_packet`), the reader that undoes
    the `^` escapes and splits packets at `CR` (`SpaceballRawPacketIter`),
    and the motion/button events (`SpaceballEvents`).
  - `spaceorb`: SpaceOrb packets (`parse_orb_packet`, `decode_ball_data`),
    the reader that frames packets by header and checksum byte
    (`SpaceOrbPacketIter`), and its events.
  - `probe`: the decisions of the two device probes.
  - `ports`: which serial ports are worth probing.
  - `buttons`: the `ButtonState` trait of the key events.
  - `bits`: byte-level helpers.
  Each reader is specified by a step function over a model of its state
  (`sb_step`, `orb_step`); the laws (`lemma_*`) state what a reader gives
  back for well-formed packets on the wire.
- `app/` is the serial-port side: opening and probing ports with
  `serialport`, driving the readers from the bytes read, and scaling motion
  to floating-point rates (`NormalizedMotion`, `InputMode`, `process`).
- `tests/` runs the library on concrete packets.
