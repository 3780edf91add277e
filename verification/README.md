# umor

Umor is a small stack-based language written in Japanese: words are
separated by spaces, inflections (送り仮名) are ignored, and programs are
sequences of word definitions (`挨拶 とは … こと。`) and top-level
expressions closed by 「。」.

This crate is the language's library, verified with Verus:

- `src/tokenizer/` — the lexer: splitting, literals, comments, width/case
  and okurigana normalisation of words.  `tokenize` is proved to compute
  the spec function `spec_tokenize`; `tokenizer/laws.rs` holds what is
  proved of it for every input (where lexing can fail, the order of token
  lines, idempotent normalisation).
- `src/parser/` — the parser and the static scope check, proved against
  the grammar model of `parser/grammar.rs` and the violations defined in
  `parser/scope.rs`; `parser/laws.rs` shows that every top-level item read
  ends with a consumed 「。」, and `parser/composition.rs` that the tokens of
  two programs, one after the other, parse to the definitions of both.
- `src/interpreter/` — the tree-walking interpreter.  `semantics.rs`
  defines what running a program means over the model `IState`; every
  operation of the interpreter is proved to follow it.  Where the embedding
  program decides (a closure registered with `register_native`, or the
  module reader asked by 「含める」 and 「必要」), the model takes the
  answer from an oracle; every question asked is recorded in the state with
  the state it was asked in and the answer, and each run is proved to be
  the model's for every oracle that gives the recorded answers.  The lines
  「表示」 writes are the model's `output`, and a sink that keeps a record
  of its lines (`OutputSink::keeps_record`) is proved to receive exactly
  them.  `laws.rs` holds the properties proved of that model.
- `src/runner.rs` — processing whole texts (`run_source`,
  `run_file_source`), with its own model.
- `app/` — the `umor` command (file runner and REPL) and the browser
  entry point.
