# adapto

The logic of the Adapto web framework as a Verus library: the functions in
`src/` state what they return in `requires` / `ensures` contracts over
mathematical models, and Verus proves every one of them.

## Layout

- `src/text.rs`: characters, trimming, searching, decimals, and the
  whitespace and case predicates the rest builds on.
- `src/parser/`: the `.adapto` file format: blocks, the template markup, the
  script declarations (state, props, actions, forms) and parse errors.
- `src/forms/`: JSON values, field types and constraints, cross-field rules,
  sanitizers and validation results.
- `src/runtime/`: identifiers, request context and permissions, session
  state, resources, the handler language's lexer and parser, the methods
  handler code calls on values, and assignment to dotted paths.
- `src/db/`: queries and their SQL, migrations and the migration runner,
  an in-memory repository.
- `src/events/`: events, subscriptions, the event log, throttling and the
  subscriptions page.
- `src/scheduler/`: schedules and their next fire times, job state, the
  engine's start-up, retry, catch-up and tick decisions, triggers and the
  admin page.
- `src/live/`: live sessions, their manager and DOM patches.
- `src/ml/`: model errors.
- `app/`: what Verus does not see: file and network I/O, the clock,
  conversions to and from `serde_json`, and evaluation of the handler
  language, whose arithmetic is floating point.
- `tests/`: tests of the library on concrete values.

Where the library calls an outside crate (chrono, chrono-tz, cron, uuid) or a
part of `std` that Verus does not specify, the call sits in a small function
marked `#[verifier::external_body]` whose doc comment says what its contract
claims; everything around it is verified.
