# markc

The verified core of a desktop tool that batch-watermarks JPEG and PNG images.

- `src/` is the library, written in Verus and proved:
  - `metadata`: reading and rewriting the description metadata held in image
    bytes (PNG `tEXt Description` chunks, JPEG EXIF `ImageDescription`), the
    metadata policy of an export, and the laws that a written description is
    read back unchanged and that the last write wins.
  - `bytes`: byte-level helpers (big/little-endian fields, CRC-32, searches).
  - `export`: output folder and file naming, collision suffixes, request
    validation, and the batch-export state machine.
  - `import`: import decisions, supported extensions, stable image ids.
  - `preview`: base64 and `data:` URLs for previews.
  - `color`: colour parsing, font-file candidates, text-layer pixel writes.
  - `text`: string helpers and the trusted wrappers around `std` text and
    path functions.
  - `domain`: the request and result types.
- `tests/` exercises the library on concrete values.
- `app/` is the unverified desktop side: file and folder I/O, image decoding
  and encoding, and the floating-point text renderer.
