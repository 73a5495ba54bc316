# rv_netshare

A LAN file-sharing server: it serves files and folders picked on this
machine as download links (`/s/<id>`), static websites each on a port of
their own (`/w/<id>` or the site's root), and upload pages of receive cards
(`/r/<id>`), and records every download in a history kept on disk.

## Layout

- `src/` — the library, verified with Verus. Every decision of the server
  is here, with its contract:
  - `http.rs`: request lines and headers, `Range`, percent-decoding,
    routing, response headers, JSON replies;
  - `serve.rs`: what to answer for a share or a site once the file system
    has been looked at;
  - `html.rs`: the index, folder listing, error and upload pages;
  - `receive.rs`: receive cards, who may upload what, upload requests;
  - `sharing.rs`: creating shares and sites from picked or pasted paths;
  - `state.rs`: the records, the registry keyed by token, restoring saved
    records, random tokens;
  - `config.rs`: settings, ports, directories, pasted paths;
  - `storage.rs`: the download history and directory listings;
  - `tunnel.rs`: the book of the public tunnel worker, keys and links;
  - `order.rs`: the stable order by rank and text used for listings and
    port assignment;
  - `text.rs`, `paths.rs`: text helpers and the `std::path` calls.
- `tests/` — tests of the library on concrete values.
- `app/` — the program around the library: sockets and threads, files,
  JSON on disk, the ngrok tunnel worker and `main`.
