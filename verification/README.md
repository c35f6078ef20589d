# newsletter

The bodies of a newsletter service's emails and pages, and the logic of
sending one email through the Resend HTTP API, verified with Verus.

- `src/mail.rs`: `esc` (HTML escaping), `strip_tags` (HTML to plain text),
  the confirmation, post and custom emails, the subscribe page and the landing
  page. Each function's contract states its result exactly, over the fixed
  text in `src/templates.rs`. Proof functions state what escaping and
  stripping promise (no markup left, concatenation, equivalence with a chain
  of replacements, undone by a one-pass unescape and so injective, single
  spacing, idempotence).
- `src/resend.rs`: the JSON body of a send request and the meaning of a reply
  (message id, or an error message). JSON strings are written and read by
  `serde_json`, behind two trusted wrappers.
- `src/json.rs`: the JSON form of a string, as serde_json's escape table
  gives it, and the proof that it reads back as the string.
- `src/headers.rs`: headers as a map (last value wins), listed in the order
  of their names, with the order of strings and its laws.
- `src/text.rs`, `src/words.rs`: substring replacement and whitespace
  collapsing, with the lemmas about them.
- `app/lib.rs`: the asynchronous `send`, which makes the HTTP request with
  `reqwest` and hands status and body to the library.
- `tests/`: tests of the library on concrete values.
