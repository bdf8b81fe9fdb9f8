# tephra

Positions, spans, source texts, a lexer and parse-error rendering for
hand-written parsers, written in Verus: the functions of `src/` state
what they do in `requires` / `ensures`, and Verus proves it. What a
user's scanner returns, and what the user's token equality says, is
known to these contracts only through the `Scanner` and `PartialEq`
contracts, so the lexer's clauses about scanned tokens hold for token
types whose equality obeys its specification.

Layout:

- `src/position.rs`, `src/metrics.rs`: byte, line and column positions,
  and how a text's line endings, tabs and wide characters move them.
- `src/span.rs`, `src/source.rs`: spans and the source text they point into.
- `src/lexer.rs`: the lexer that drives a user scanner, with lookahead,
  token filtering and error recovery (`src/recover.rs`).
- `src/bracket.rs`: matching nested brackets in a token stream.
- `src/combinator.rs`: the `one`, `any`, `any_index`, `seq` and `empty`
  token parsers, and the decisions of
  the bracketed, list, delimited list and interspersed parsers, as step
  functions from a state and what the last action gave to the next state
  and action, error recovery included.
- `src/parse.rs`: the bracketed, list, delimited list, interspersed and
  repeated parsers themselves, each a loop that runs its step function,
  calls the user's parsers (closures) and hands recoverable errors to the
  context's error sink (a closure too). Their contracts say what each
  result is made of: values the parsers gave or default values, counts
  within the bounds, and errors that came from the parsers, the bracket
  search or the sink. `app/combinator.rs` calls them with the parse
  context of `app/context.rs`. The other parser combinators of a full
  parsing library (`pred`, `maybe`, `either`, `stabilize` and the rest)
  are not part of this library.
- `src/error.rs`, `src/error/`: the parse errors and their descriptions.
- `src/display.rs`, `src/highlight.rs`, `src/render.rs`, `src/fmt.rs`,
  `src/message.rs`, `src/note.rs`, `src/paint.rs`: rendering errors as
  annotated source excerpts. Without color the text written is stated
  exactly; with color (which the terminal decides) a painted piece is the padded
  text either alone or between its color's escape sequence and the reset
  sequence, and the contracts of the writers state that the uncolored
  text occurs in what is written, character by character and in order,
  after what was there before, as long as no painted message holds a
  terminal reset sequence.
- `app/`: `Display` and `Error` for the library's values, and the parse
  context that routes recovered errors to user closures.
- `tests/`: tests of the library on concrete values.

The outside crates `unicode-width` (character widths), `colored`
(terminal colors), `smallvec` (the bracket stack) and `few` (results of
span operations) are called through a few trusted functions whose
contracts state what their documentation promises.
