# birei

The verified logic behind the Birei web components, written in Verus.

- `src/` is the library. Every function carries a `requires`/`ensures`
  contract over spec functions on `Seq`, `nat` and the library's own types,
  and the public `lemma_*` proof functions state the laws that hold across
  calls (for example: committing the editor's content twice reports one
  change; the selected tab always stays inline; legacy table headings are
  normalized idempotently).
- The few calls into outside crates (pulldown-cmark, html2md, qrcodegen,
  uuid) and into std without a vstd specification sit behind small
  `#[verifier::external_body]` wrappers whose doc comments say what is
  trusted.
- `tests/` runs the library on concrete values.
- `app/` holds what Verus does not take: pixel geometry and stroke sampling in
  floating point, UUID conversions, the async image hook of the Markdown
  editor, the process-wide notification counter and manager, and the
  signature pad handle. It measures, then hands plain values to the library, which decides.
