# tinyboot (verified core)

The logic of a small serial bootloader for CH32 microcontrollers, written in
Verus with its behaviour stated as contracts and proved.

- `src/` — the verified library: CRC16-CCITT (`crc`), wire values and version
  packing (`protocol`), frame sync detection (`sync`), the write ring buffer
  (`ringbuf`), boot states and the post-reset decision (`boot`), the
  option-byte boot metadata (`meta`), the single-byte boot state of option
  byte DATA0 (`ob_state`), the protocol dispatcher (`dispatcher`), the
  app-side client (`app`), CH32 storage, serial and register values
  (`platform`), and the platform traits (`traits`).
- `app/` — board glue in plain Rust: the embedded-io / embedded-storage
  traits, the protocol loop that hands the platform to the dispatcher's
  verified plan runner, the app-side polling loop and an RS-485
  direction-pin transport.
- `tests/` — tests of the library.
