# California School Dashboard

Pulls school indicator data from the California School Dashboard public API
and turns it into one privacy-filtered report model, rendered as CSV, Excel,
HTML and PDF. The program offers a command line and a local web interface.

## Layout

- `src/` is the library, verified with Verus. Every public function states
  what it returns in its contract, and the `law_*` proof functions state the
  properties that hold across calls.
  - `years`: supported reporting years, Dashboard year identifiers, CDS codes
    and endpoint URLs.
  - `resolver`: school lookup by CDS code, exact name, substring and edit
    distance; search ranking; the school and district directory.
  - `model`: requests, outcomes, provenance and summary cards.
  - `client`: the retry and payload-limit policy of a request, the provenance
    digest, and `Retry-After` reading. The caller performs each step.
  - `statistics`: the canonical rows (privacy and small-denominator
    suppression, year rules), data-quality counts, the retrieval log and the
    narrative.
  - `export`: spreadsheet-safe text, HTML and PDF escaping, line wrapping,
    the HTML report, the styled lines of the PDF report and the PDF file
    structure.
  - `json`, `payload`: the JSON document model and the tolerant reading of a
    SummaryCards payload into typed indicators, numbers kept as their text.
  - `database`: the school cache's columns and schema, reading and cleaning
    the source CSV file, rows keyed by CDS code, import summaries and the
    comparison of the source file with the cache.
  - `web`: request limits, job planning, job progress and identifiers.
  - `cli`, `text`, `order`: command-line checks, character-level text
    handling, and deterministic ordering.
- `app/` is the program around the library: argument parsing, HTTP, SQLite,
  file output, the web server, and the parts that work with floating-point
  numbers (number formatting, comparator gaps, Excel cells, PDF layout).
- `tests/` exercises the library on concrete values.
