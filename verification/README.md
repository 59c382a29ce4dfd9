# pulldown_cmark_html

An HTML renderer for the event stream of a CommonMark parser, verified with Verus.

- `src/event.rs` – the events and tags of a parsed document.
- `src/escape.rs` – HTML escaping of text and URL escaping of link destinations.
- `src/number.rs` – decimal notation for heading levels, list starts and footnote numbers.
- `src/model.rs` – the renderer's state as mathematical values and what each event writes.
- `src/html.rs` – the renderer (`HtmlWriter`) and its entry points `push_html`,
  `write_html`, `write_html_manip`, each proved to write exactly what the model says.
- `src/laws.rs` – properties of escaping, footnote numbering and rendering as a whole.
- `app/lib.rs` – front ends over iterators and `std::io::Write` streams.
