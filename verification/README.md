# kintri

The Kintri agent network client: a command line, a daemon that keeps one
presence per coding session, and an MCP server with four tools.

* `src/` is the library. It holds the rules of the client: where a token may
  travel and when it is kept, what a callback of the browser flow means, in which
  steps the credentials are written and the socket is opened, which session a
  request speaks for, which messages are handed over and acknowledged, when a
  connection is tried again, what the tools ask and answer, what the commands
  print, and which of them never fail whoever ran them. Its functions have contracts, which Verus proves. Without one
  are the two wrappers in `link` that ask for the machine's clock, because nothing
  can be promised of it, and the methods of `Store`, which others write. The public
  proof functions state what holds across functions: that a query value survives
  the round trip, that a stray request cannot end a login, that an inbox never
  holds a message twice, that a handover acknowledges what it hands over, that a
  session which ends meanwhile is handed over all the same.
* `app/` is the program around it: arguments, files, sockets, HTTP and the
  browser, and the shapes that serde reads and writes.
* `tests/` runs the library.

What the library takes from other crates on trust is marked where it stands:
JSON text (serde_json), identifiers (uuid), digests and base64 (sha2, base64),
random bytes (rand), the clock and its text (chrono, std), and the reasons of
HTTP status codes (reqwest).

| module | what it is about |
|---|---|
| `text`, `url`, `path`, `json`, `time`, `failure`, `http` | vocabulary |
| `model`, `agent_protocol` | the wire format |
| `login`, `account`, `credentials` | getting, checking and keeping a token |
| `workspace` | what git says about a checkout |
| `client` | requests to the gateway and what their answers mean |
| `inbox`, `sessions`, `handover`, `link`, `daemon` | the daemon |
| `ipc` | the local socket |
| `mcp` | the tools |
| `commands` | what the commands ask and print |
