# hotaru

The routing and protocol core of the Hotaru web framework, written in Verus
with its behaviour stated as contracts and proved.

## Layout

- `src/url/`: the route language and the route tree.
  - `lexer.rs`, `parser.rs`: route patterns (`/users/<int:id>`, `<name>`,
    `<regex>`, `<**path>`) are read into typed path patterns; path
    substitution and regex escaping.
  - `pattern.rs`: path patterns, their matching and priority (regexes are
    compiled and matched by the `regex` crate).
  - `node/`: the children table of a node (literal, regex, wildcard and
    catch-all buckets, tried in priority order), segment names, and the
    cursor that walks all matches of a path in priority order.
  - `root.rs`: the route tree held as an arena of nodes: registration (with
    route parameters merged on re-registration) and lookup, with the laws
    that registration changes exactly the nodes along its path, preserves
    earlier routes, and that literal routes are found again.
- `src/http.rs`, `src/http/transport.rs`: HTTP/1 errors and their status
  mapping, error pages, the keep-alive decision, method sniffing, and the
  per-connection state.
- `src/grpc.rs`: gRPC request paths, content-type checks, length-prefixed
  message framing and its round trip.
- `src/sql/`: SQL clients and their builder, the query context, query
  results and messages, the
  connection pool cache (with its expiry rules on explicit time stamps), and
  the SQL transport.
- `src/protocol.rs`, `src/io.rs`: the protocol vocabulary shared by all
  protocols, and the I/O adapters with the progress rule of their
  read-exactly and write-all loops.
- `app/`: what needs the runtime: the shared pool behind a lock with its
  background cleanup task, the error types with their `Display` and
  `Error` impls, and query results built from serialisable rows (JSON and
  template values).

`tests/` runs the library on concrete values.
