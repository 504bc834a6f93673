# lore_weekly

The verified core of a weekly mailing-list summarizer, which turns one
completed calendar week of a lore-style archive into a markdown edition (root
catalog, week overview, one file per thread) and, optionally, a static HTML
mirror of it. The library computes that edition's pieces: which week to work
on, which threads were active, the agents' prompts and the checks on their
answers, every output file's text, and the HTML pages. Reading the mail
database and running the model agents are not part of it.

The library under `src/` is written in Verus. Its functions carry
`requires` / `ensures` contracts over mathematical models (`Seq`, `Set`,
`int`, views of the library's types), and the contracts are proved; the few
functions that call an outside crate state what that crate does, and those
statements are trusted.

- `week`, `outputs`, `summarize`, `threads`, `email_index`, `models`: week
  windows and week resolution, the output layout and its files, active-thread
  selection and threading, and the message record built from a mail's headers.
- `agent`: the prompts, thread ordering and its repair, session decisions and
  token accounting, earlier-week summaries, client settings.
- `tools`: the read-only agent tools (mail search, output files, related
  threads), their path rules, request de-duplication and the submit slots.
- `html`: markdown front matter, titles and descriptions, the parsed
  markdown events prepared for the HTML tree (links pointed at `.html`, raw
  HTML turned into text), link rewriting between the trees, page chrome and
  unfurl metadata.
- `ids`, `lore`, `text`, `rel_path`, `seqs`, `numfmt`: Message-ID
  normalization and file stems, lore permalinks, and the string and path
  helpers the rest is built on.

Calls into `chrono`, `regex`, `sha2`, `serde_json`, `pulldown-cmark` and `anyhow` go through a
few small trusted functions whose contracts state what those crates do.

`app/` is the command-line program around the library: configuration,
filesystem access, the `render-html` and `regenerate-root-index` commands,
and the `tool` subcommands that work on the outputs tree. `tests/` holds the tests.
