# lib

A small TCP key-value server. The verified library (`src/`) holds:

- `store`: the store of put bodies by key, the answer to each message (`Store::handle_conn`,
  `handle_get`, `handle_put`), the decision on a message header (`read_header`), and the
  laws that relate puts and gets;
- `package`: a received message (`RcPackage`) and the layout of a put body;
- `request`: the request layout read by `Request`, and the builders `get` and `put`;
- `view`: `ContiguousView`, several byte slices read as one sequence;
- `text`: `desc`, the printable description of a byte string.

`app/main.rs` is the server itself: sockets, worker threads and the lock around the store.
