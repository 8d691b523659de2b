# bspwm-cyberquote

A cyberpunk quote overlay for BSPWM: one undecorated web view per monitor,
each showing a quote with glitch, scanline, CRT and typewriter effects.

## Layout

- `src/` — the verified library (Verus):
  - `text.rs` — Unicode whitespace, trimming, decimal and hex digits;
  - `css.rs` — `--name:value;` custom-property declaration lists;
  - `escape.rs` — HTML escaping, JavaScript string literals and their reader,
    with the proof that reading a written literal gives the text back;
  - `quotes.rs` — quotes, the usable pool of a quotes file, random picking;
  - `cyberhtml.rs` — the theme's default properties and the page document;
  - `page_reads.rs` — the proof that every `var(..)` of the page names a
    property that the theme's defaults declare;
  - `config.rs` — quote/monitor settings, the stylesheet, monitor geometry,
    the primary-monitor filter and the order in which config files are tried;
  - `random.rs` — the `rand` calls that picking rests on.
- `app/` — the GTK4 / WebKitGTK host: reading `config.toml` and
  `quotes.json`, the floating-point theme settings, monitors and windows.
- `tests/` — the library's tests.
