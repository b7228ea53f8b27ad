# resume_builder

The verified core of a local resume and cover-letter assistant.

- `src/settings.rs`: the persisted LLM settings, their defaults, and the
  choice between stored and default settings on load.
- `src/generation.rs`: the URLs and JSON bodies of Gemini and Ollama
  generation requests, and the reading of an HTTP exchange (its JSON reply
  parsed with serde_json) into the
  generated text or an error message.
- `src/judge.rs`: the LLM-judge prompt of the retrieval evaluation and the
  reading of a relevance grade (0-3) from the judge's reply.
- `src/metrics.rs`: relevance counts, first relevant rank, ground-truth hits,
  and the ideal (descending) ordering used to normalise nDCG, with its laws.
- `src/eval_args.rs`: the command-line options of the evaluation harness.
- `src/text.rs`: Unicode trimming, trailing-character stripping, decimal
  `i32` parsing and rendering, and display truncation.

`app/` holds the I/O around it: HTTP calls with `reqwest`, settings stored in
SQLite with `rusqlite`, serde copies of the settings, and the evaluation
harness (floating-point metrics, report writing).
