# bysqr

Encoder and decoder for the Slovak by square QR payment and invoice formats:
PAY by square, INVOICE by square (all five document types) and INVOICE ITEMS
by square. Verus checks the library's functions against their contracts; the
exceptions are a few small trusted wrappers, marked `external_body`, whose
bodies call `crc32fast`, `liblzma`, `chrono`, `image` with `rqrr`, and two std
string conversions, and whose contracts state what those calls are relied on
to do.

## Layout

- `src/` — the verified library.
  - `codec` — the payload envelope: header, length, CRC32, raw LZMA1 and
    Base32hex, and what a payload decodes to.
  - `fields`, `reader`, `numeral`, `decimal`, `magnitude`, `calendar`,
    `text`, `canonical` — tab-delimited fields, numerals, exact decimals
    and the uniqueness of their canonical text, dates.
  - `pay`, `invoice`, `invoice_items` — the data models, their rules, the
    sequences they are written as and read from, and the laws that relate
    encoding and decoding.
  - `document`, `xml`, `output`, `qr`, `qr_reader`, `diagnostic` — family
    dispatch, the XML root element, batch file names, QR canvas geometry,
    reading QR codes from raster images, advisory length diagnostics.
  - `error`, `wasm` — the error type, its messages, and the structured form
    (stable code and values) that JavaScript callers receive.
  - `checksum`, `lzma` — the calls into `crc32fast` and `liblzma`, each with
    the contract the library relies on.
- `tests/` — tests of the library.
- `app/` — the `bysqr` command line: argument parsing, files, JSON and XML
  through serde, SVG drawing and rasterization.

## Checking

The library verifies with Verus; `tests/` runs with the outside crates
linked.
