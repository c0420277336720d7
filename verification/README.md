# jmap_remote

A JMAP client for mail (RFC 8620, RFC 8621): it opens a session at a URL or at
the host that a domain's SRV records name, lists the ids of all emails, follows
the changes since a state, fetches the properties of emails and downloads their
blobs.

`src/` is the verified library. It does no I/O. An operation is a value that
says which call it wants made (`Next::Post`, `Next::Refresh`,
`NextAttempt::Try`), and takes in what came of it; its contract says what the
call is, and what every answer makes of the operation. Laws over whole runs of
answers are stated as public proof functions next to the operations.

| module | holds |
| --- | --- |
| `jmap` | the objects that go over the wire |
| `error` | errors and their texts |
| `text`, `encoding`, `template` | characters and numbers, Base64, URI templates |
| `http` | the calls, and the `Authorization` header on them |
| `id_set`, `small_set`, `email` | sets of ids, small sets, and the emails that are kept |
| `remote`, `exchange` | the open session, and the exchange of requests and responses |
| `open` | opening a session |
| `paging`, `changes`, `fetch`, `blob` | the operations |

What is taken on trust are the calls into `base64`, `itertools` and
`uritemplate`; the functions that make them are marked
`#[verifier::external_body]` and say what they claim.

`app/` makes the calls: HTTP with `ureq`, DNS with `trust-dns-resolver`, JSON
with `serde`. `tests/` runs the library on concrete values.
