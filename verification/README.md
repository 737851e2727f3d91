# lib: a verified lexer library

A lexer built from *actions*: each action matches the start of the rest of
a text (a run of chars, an exact string, a word, an integer, float or
string literal) and may be muted (its match is digested without a token),
bound to a kind id, and given a head matcher (the first chars it can
accept) and a literal. Every function carries a Verus contract and is
proved, but for a few thin wrappers of std calls (`Rc::clone`,
`char::is_alphanumeric`, `char::from_u32`,
`String::push`, `char::to_string`, `Vec::from` on an
array), whose contracts restate std's documentation and are trusted.

## Layout

- `src/text.rs`: UTF-8 byte lengths and boundaries of char sequences,
  prefix tests, and the few std char and string calls the library makes.
- `src/kind.rs`: kind ids.
- `src/lexer/action/`: actions and their matchers (`simple`, `integer`,
  `float`, `string`, `escape`, `json`), char classes and accumulators.
- `src/lexer/stateless/`: the stateless lexer, its head, literal and kind
  maps, and the specification of a lex (`lex_spec`) and a trim
  (`trim_spec`).
- `src/lexer/core_lexer.rs`: a lexer that tries every expected action in
  order with no maps.
- `src/lexer/lexer.rs`, `instant.rs`, `state.rs`, `snapshot.rs`: the
  stateful lexer of one text.
- `src/lexer/builder.rs`: building a lexer from action lists.
- `src/lexer/position.rs`: byte offsets to line and character positions.
- `tests/`: tests on concrete inputs.

## Laws

The public `law_*` proof functions state what holds across calls:

- `stateless::law_candidates_in_order`: a lex tries the actions in their
  order and skips exactly those that cannot emit what is expected or cannot
  accept the first char.
- `stateless::lex::law_lex_output_unique`: a lex is determined by its
  inputs, so a peek yields what a lex yields.
- `stateless::lex::law_emitted_token_is_unmuted`: muted actions never emit.
- `stateless::lex::law_re_lex_tries_later_actions`: re-lexing with a fork
  context tries the actions after the accepted one.
- `stateless::lex::law_trim_idempotent`: a second trim digests nothing.
- `stateless::law_selection_in_order`: each list of the head, kind and
  literal maps holds exactly the actions its filter keeps, in order.
- `lexer::law_lexer_lex_is_stateless_lex`: a lex or peek of a lexer is the
  stateless lex of its text from its progress.
- `position::law_lines_end_at_line_feeds`: each line but the last ends
  right after its only line feed; the last holds none.
- `core_lexer::law_default_callback_run`: `LexerCore::execute_actions`
  with a callback that answers as `LexerCore::callback` does is the core
  lex (`LexerCore::lex` and `LexerCore::trim` are built this way).
- `core_lexer::law_stateless_lex_is_core_lex` and
  `core_lexer::law_stateless_trim_is_core_trim`: where head matchers are
  sound, the maps change nothing.
