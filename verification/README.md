# xai_sanitize

Takes out of a native Responses request what xAI's strict parser rejects: unsupported fields, a
plugin-private flag at any depth, tools of other types, null contents of reasoning items, and
tool parameter schemas whose root is no object.

The library works in place on a `serde_json::Value`. `src/json.rs` gives the mathematical model
of a document, and `src/document.rs` says what the operations of `serde_json` do in terms of it;
these contracts and those of a few string functions in `src/text.rs` are trusted. All else is
proved:

- `fields`, `input`, `promote`, `filter`, `schema`, `coerce`: the steps, each with a contract
  that says which document comes out and that a change is reported exactly when there is one.
- `sanitize`: the steps in order.
- `laws`: what holds of the whole, first of all that a sanitized request is clean and that
  sanitizing twice is sanitizing once.
