# mdterm

The logic of the mdterm Markdown/HTML editor and its terminal, as a Verus
library: every function in `src/` carries a `requires`/`ensures` contract
that Verus proves.

* `text` — character and byte sequences: searching, trimming, splitting,
  numbers, UTF-8.
* `markdown` — Markdown to HTML for the preview and the editor (on top of
  `pulldown-cmark`), and editor HTML back to Markdown (on top of `htmd`).
* `html` — HTML documents: envelope and body, preview styles, editor
  clean-up, outline, tag stripping.
* `outline`, `state`, `stats`, `document`, `files` — outlines and anchors,
  themes and modes, document counts, shortcuts, slash commands, export,
  find and replace, directory listings.
* `tmux_parser`, `tmux` — the tmux control-mode protocol: the line parser,
  the in-band start detector, and connections (frames, command tags,
  versions, sessions).
* `config`, `pty`, `term_rec` — terminal configuration, shell environment,
  output batching, session recording, and the recorder tool's command line.

`app/` holds what Verus does not see: the recorder program, file and process
I/O, threads, YAML and JSON.
