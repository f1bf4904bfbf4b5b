# share_clip

The verified core of a clipboard-sharing desktop tool: it keeps a history of
clipboard records, shares files and clipboard entries with other devices on
the local network over HTTP, and caches what it fetches from them.

`src/` is a Verus library. Each public function states its result in its
contract, and the `law_*` proof functions state properties that hold across
calls (a resolved share path never leaves its share, read on the path's
text; `app/` then resolves symbolic links on disk and checks the result with
the library's `path_starts_with`, a web session answers
for its token until it expires, a cleanup leaves no record older than the age limit and no more than
the item limit, ...).

- `config`, `machine_id`: settings, their updates, device identity, the
  local network scan.
- `access`, `connections`, `web_auth`: who may read shared files, connection
  requests and web sessions.
- `paths`, `record_files`, `local_files`, `share_index`, `sync_diff`: shared
  paths, the index of shared folders and what a client has to fetch.
- `remote_share`, `remote_cache`: the local cache of other devices' shares.
- `web`, `pages`: HTTP details (ranges, cookies, escaping) and the browser pages.
- `capture`: which clipboard change is reported and the record it is saved
  as (kind, data, preview, hash), and whether a save inserts or touches.
- `clipboard_formats`, `clipboard_watch`, `inject`, `cleanup`, `thumbnail`,
  `text`: clipboard contents, their storage, expiry and rendering.

`app/` is a small command-line front end that does the file, network and
settings I/O around the library. `tests/` exercises the library on concrete
values.
