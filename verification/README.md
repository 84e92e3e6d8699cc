# knus

A parser for the [KDL](https://kdl.dev) document language, with the
decoding of documents into Rust values, written in Verus: the parser and the
rest of the library carry contracts that Verus proves.

## Layout

- `src/text.rs` — UTF-8 lengths and byte offsets of character sequences.
- `src/span.rs` — byte spans, spanned values, character streams with spans,
  and the line and column of a span.
- `src/ast.rs` — the syntax tree (`Document`, `Node`, `Value`, `Literal`,
  `TypeName`, …), its mathematical views, and the ordered property list of a
  node with its laws (setting a property keeps the list ordered, reading
  gives back what was set).
- `src/grammar.rs` and `src/grammar/` — the grammar. Each rule is a spec
  function on the characters of the text and a position in them; the
  executable rule computes exactly that result. A failed parse is reported
  from a failure tracker that the rules update; each rule also states,
  as a spec function of the text, the position and the tracker before it,
  what it leaves in the tracker, so the error list of a document that does
  not parse is fixed by the text alone (`parse_failure`).
  `grammar/nodes.rs` also proves laws about parsed documents (properties
  ordered in every node, node spans in order and inside the text).
- `src/errors.rs`, `src/report.rs` — syntax and decoding errors, and the
  text of their messages and labels.
- `src/decode.rs`, `src/traits.rs`, `src/containers.rs`,
  `src/convert_ast.rs` — the decoding traits and their implementations for
  boxes, shared pointers, vectors, options, spanned values and the syntax
  tree itself.
- `src/wrappers.rs` — `parse_ast`, `parse` and `parse_with_context`.
- `app/` — `miette` diagnostics for the errors, and entry points that
  return them.
- `tests/` — tests of the library.
