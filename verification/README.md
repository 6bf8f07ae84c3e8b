# ddgen

A generator of SPI device drivers, verified with Verus.

A device is described in a TOML definition: its commands, the fields of each
command's request and response, and where the bits of each field lie, written
in the small `bit-lang` notation (`3[4]`, `5[3..7]`, `4[]..7[];(3[])<49`, ...).
The generator writes a driver crate whose structures serialize to and
deserialize from the bytes exchanged with the device.

## Layout

- `src/` — the verified library.
  - `bit_spec`, `parser`, `text`, `round_trip`: the bit notation: its model,
    a parser with a grammar stated as spec functions, a printer, and the laws
    that tie them (what is printed parses back; the short forms mean the full
    ones; a `<` limit is one less).
  - `bits`, `request`, `response`, `serialize`, `word_laws`, `transmit`: the
    runtime that generated drivers use to write and read bits, fields, words
    and arrays of words, and the laws of reading back what was written.
  - `generator`: the parts of the generator that compute: field and member
    code, the order of members, buffer sizes, names, doc comments, bit
    ranges, the text of each generated file (commands, common structures, types,
    providers and the driver's root), the limitations of a device and the
    location of errors in a definition.
- `tests/` — tests of the library.
- `app/` — the command line program: reading the definition, checking that
  each file can be generated, and writing the files of the driver.
