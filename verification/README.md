# openshell_inspect

Verified rules behind three pieces of OpenShell:

- **Inspection of JSON-RPC traffic.** HTTP/1.1 request bodies are read under a
  limit (`http`, `chunked`, `framing`), chunked ones are reframed with a
  `Content-Length`, and the messages in them are checked as JSON-RPC 2.0 or as MCP
  (`jsonrpc`, `mcp`, `json`, `accept`).
- **Discovery of provider credentials** in the environment (`discovery`).
- **Bootstrap of the gateway's TLS files**, as Kubernetes Secrets or on disk
  (`certgen`, `local_pki`, `install`, `paths`).

Every function states what it returns, and Verus proves it. What holds across
functions is stated and proved in the modules whose names end in `_laws`, and next
to the functions in `discovery`, `certgen` and `paths`.

What other crates compute is called through small functions whose contracts are
believed: reading JSON text (`json`), the typed MCP messages of `tower_mcp_types`
(`mcp`), reading bytes as text (`utf8`), and quoting text (`http_error`).

- `src/` is the library, which does no I/O: where bytes have to be read or files
  to be written, it says what to do next.
- `app/` does the I/O: connections, the file system, the cluster, the command line.
- `tests/` runs the library from outside.
