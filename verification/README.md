# gh_copilot_pricing_tui

Reads the pricing tables of GitHub Copilot's model documentation and shows
them in an interactive terminal table that can be copied to the clipboard as
tab-separated values.

The library under `src/` is verified with Verus:

- `data` — tiers, release statuses, prices (`Price::parse` accepts a `$`
  followed by a number as `f64` parsing reads it, never negative, `inf` or
  `nan`, nor so large that it would read as infinity; `data::magnitude`
  decides the last exactly, in integer arithmetic), entries, and `data::parse`, the reader that turns the Markdown event
  stream into entries.
- `ui::clipboard` — the tab-separated table; its layout cannot be broken by
  what a cell holds (`lemma_tsv_layout`).
- `app` — the cursor over the table, what each key does, the status and help
  lines; the cursor never leaves the table.
- `text` — trimming, comparison and string building over `Seq<char>`.

`app/` is the program around it: fetching the documentation, the terminal,
the clipboard, and the floating-point rendering of amounts.
