# dpscript

The front end of the dpscript language (a scripting language for Minecraft datapacks):
a tokenizer, the token trees built from its tokens, a cursor that parsers use to walk
them, the merging of definition metadata, and the semantic highlighting that the language
server sends to editors. The library's functions are verified with Verus against their
contracts; the few calls into the standard library that Verus has no specification for
(character classes, integer parsing, formatting) are trusted wrappers in `src/chars.rs`.

## Layout

- `src/span.rs`: spans of character offsets.
- `src/chars.rs`: the character classes and integer parsing of the standard library.
- `src/cursor.rs`: a cursor over source text with look-ahead and spans.
- `src/keyword.rs`, `src/token.rs`: keywords and the flat tokens.
- `src/tokenizer.rs`: source text to tokens, with the tokenizer's whole behaviour stated
  as a specification (`spec_tokenize`).
- `src/tast.rs`, `src/owned.rs`, `src/parser.rs`: token trees, their owned copies, and
  the path from text to trees.
- `src/token_cursor.rs`, `src/lexer.rs`, `src/meta.rs`, `src/def_meta.rs`: the cursor over
  token trees, the lexer's errors, the modifier flags before a definition, and definition
  metadata with its merge.
- `src/value.rs`: literal values read from token trees.
- `src/semantic.rs`: token kinds and the relative encoding of semantic tokens.
- `src/display.rs`, `src/report.rs`: how tokens, trees and errors are printed, and panic
  reports.
- `tests/`: tests of the library on concrete inputs.
- `app/`: the command-line tokenizer and the language server.
