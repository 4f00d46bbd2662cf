# commission_meetings

Reads the reports of the commission meetings of the Belgian Chamber: the meeting itself (date, time
of day, start, end, chair, commission) and the questions asked in it (who asks whom about what, who
answers, and the discussion as JSON).

- `src/` is the library, verified with Verus. Each function states what it returns over models that
  are sequences of characters; proof functions named `law_..` state what holds of several of them
  together.
- `tests/` runs the library on given values.
- `app/` downloads the reports and writes the tables as Parquet files. It takes the HTTP client, the
  directories and the cleaning of text from the `crawl` crate of the workspace in which it is built.

What the library takes on trust are the searches of `regex` (`src/pattern.rs`), the selection of
elements by `scraper` (`src/document.rs`), the decoding of Windows-1252 by `encoding_rs`
(`src/page.rs`), the JSON text by `serde_json` (`src/json.rs`), and `String::push` and
`str::to_lowercase` of the standard library (`src/text.rs`).
