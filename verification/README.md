# nine_rai

A verified library for a local MITM engine: it redirects the traffic of an IDE to an
OpenAI-compatible provider of the user's own, and passes everything else through untouched.

- `src/` is the library. All of its logic is verified with Verus; contracts speak of mathematical
  models (`Seq<char>` for text, `Seq<u8>` for bytes, ghost structs for protocol states), and what
  holds of the library as a whole is stated as public proof functions named `law_*`. What it has
  from outside crates is not verified: it stands behind small trusted functions, listed below, and
  every proof rests on what they claim.
- `tests/` runs the library on concrete values.
- `app/` is the program around it: command line, sockets, files, processes.

| module        | what it holds                                                                |
|---------------|------------------------------------------------------------------------------|
| `eventstream` | AWS EventStream frames, their decoder, and the laws that tie the two         |
| `translate`   | conversation to chat request, streamed answer to frames, thinking blocks, SSE |
| `hosts`       | the managed block of the hosts file                                          |
| `privilege`   | privileged batches: rendering, validation, and judging their steps           |
| `cert`        | root and leaf certificates, the trust store, and the cache of keys           |
| `proxy`       | routing, control channel, headers that cross, diagnosis of failures          |
| `desktop`     | elevation, the daemon's log, the supervisor, and the window's commands       |
| `daemon`      | the daemon's way up and down                                                 |

Each trusted function has a doc comment that says what is claimed of the outside function. They are
in `eventstream/buffer.rs`, `eventstream/testing.rs`, `json.rs`, `utf8.rs`, `text.rs`, `cache.rs`,
`cert/x509.rs`, `dns.rs`, `privilege.rs` and `calendar.rs`.
