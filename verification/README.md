# provenex-ingest

Uploads OpenTelemetry GenAI captures (`*.otlp.json`) to a verdict service: one file (`send`), a
directory (`batch`), a directory as it fills (`watch`), or as an OTLP/HTTP receiver (`listen`).
With `--mode hash`, message content, tool arguments and results, and user identities are replaced
by HMAC-SHA-256 digests under a salt before anything is sent. A file that could not be sent is
sent again, up to three times in all; as a receiver the program tells the collector, which tries
again itself. Verdicts can be written to HTML reports, and summaries of them can be shared.

The logic is a verified library in [Verus](https://github.com/verus-lang/verus).

- `src/` is the library. Each function's contract says what it returns. Proof functions named
  `law_...` state what holds across functions, among them:
  - in hash mode every content or identity attribute whose value is a non-empty object leaves
    digested, and the rest of a payload passes through unchanged (`redact.rs`, `forward.rs`);
  - a digest does not depend on the order in which objects list their members (`canonical.rs`,
    `redact.rs`), and the canonical text tells different contents apart (`apart.rs`);
  - a report page loads nothing (`contained.rs`);
  - failed attempts to send are repeated, and only so often (`upload.rs`);
  - of a verdict, a shared summary shows nothing but the tenant, counts, colours, risks and
    reasons (`feedback.rs`), and production keys share only on request (`cli.rs`);
  - a watcher hands out every file once (`files.rs`);
  - the reports on different captures go to different files beside the report path (`paths.rs`).
- What is believed of other crates stands in `codec.rs` (`serde_json`), `digest.rs` (`hmac`,
  `sha2`, `hex`), `report.rs` (`chrono`), and of the standard library in `text.rs` and
  `paths.rs`, each with a comment on what it claims.
- `app/` is the program around the library: terminal, files and network.
- `tests/` runs the library on concrete values.

A slash separates the components of a path, and where the machine has it so, a backslash too. There
a path that begins with two separators names a server; the standard library takes it apart, and the
laws on reports speak of it only for a given parent and name.
