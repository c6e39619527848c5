# l76k_gps

Configuration encoder and fix model for the Quectel L76K GPS receiver.

- `src/gps/l76k/pcas/` builds PCAS configuration sentences
  (`$PCASnn,...*CS\r\n`): the command models, a bounded byte writer, decimal
  formatting of the arguments, the XOR checksum and the framing. Every
  function carries a contract stating the exact bytes produced and exactly when
  the output buffer is too small; proof functions state that every encoded
  command is an ASCII sentence whose checksum digits match its payload.
- `src/types.rs` holds the fix record handed to consumers, with times and dates
  as plain values, and the states and errors of the driver pipeline.
- `src/gps/gps_interfases.rs` holds the output-pin trait.
- `app/` holds what runs on the hardware: the async driver and state-machine
  traits, the nRF pin wrappers, and the conversion of the NMEA parser's
  floating-point position into a fix.
