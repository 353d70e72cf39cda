# capable_broker

A capability broker. An agent holds opaque references instead of ambient rights;
the broker resolves each reference and checks what it allows. Every grant,
derivation, revocation and use goes on a hash-chained audit trail, and so does
every refusal of one. Nothing is handed out or done before the trail tells of it
durably.

The rules are in `src/`, written in Verus and proved against their contracts.
`app/` is the program around them: sockets, files, child processes, and the
kernel calls that confine them.

## Layout

| where | what |
| --- | --- |
| `state`, `session`, `actions` | the capabilities of a session and what each operation does |
| `cap`, `label`, `path`, `role` | operations, taints, paths, and what a role may ask for |
| `policy` | which actions need consent, and the ledger of consents |
| `audit`, `sha256` | the audit trail and its chain of digests |
| `request`, `proto`, `frame`, `base64` | the wire: framing, requests, replies |
| `net` | hosts, request targets, and the addresses that are never dialled |
| `capvm` | the handle table of a guest process |
| `os`, `sandbox` | the system-call filter and the order in which a child is confined |
| `show` | texts made safe to show to a person |
| `cli` | the command line |
| `*_laws` | properties that span several operations |
| `text`, `table`, `order` | strings, maps and ordering |

Whatever the host does (reading a file, dialling an address, drawing random
bytes, writing a log line) reaches the library as a value. A request runs in
steps: the library says what it waits for, the host does it, and the library
goes on with the outcome.
