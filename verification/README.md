# mitdx

Client for the TDX (通达信) quote protocol and reader of TDX "vipdoc" bar
files, exposed to Python as `mitdx._core`.

- `src/` — the verified library (Verus):
  - `protocol.rs` — little-endian fields, the variable-length price
    differences, packed dates and times;
  - `request.rs` — every request packet, byte for byte, with its declared
    length equal to what follows the header;
  - `response.rs` — response header and zlib-compressed bodies;
  - `parse.rs` — bars, ticks and quotes (variable-length records);
  - `fixed.rs` — ex-rights events, F10 files, financial summary, security
    count and list, report-file chunks;
  - `text.rs` — GBK and UTF-8 fields, NUL padding;
  - `vipdoc.rs` — `.day` and `.lc1` / `.lc5` records;
  - `server.rs` — stable ranking of servers by latency.
- `app/` — the PyO3 module: sockets, memory-mapped files, threads, and the
  floating-point conversions (packed volumes, `f32` fields, price scaling).
- `tests/` — tests of the library on concrete bytes.
