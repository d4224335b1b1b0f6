# depotmanager

A Steam depot downloader: it talks to Steam CM servers over WebSocket, reads
product info (PICS), fetches depot manifests and chunks from the CDN, and
writes a chosen version of a game into a directory, resuming and skipping
what is already in place.

The library in `src/` is written in Verus and every function in it is
verified against its `requires`/`ensures` contract:

- `msgs` — message framing (`MsgHdrProtoBuf`), EMsg/EResult constants, SteamIDs
- `kv` — text VDF and binary KeyValues parsers, the `KeyValue` tree
- `crypto`, `machineid` — AES-256 names and payloads, RSA password
  encryption, Adler-32, the machine-id blob
- `manifest` — depot manifests: section framing, decoding, name decryption
- `cdn` — content servers, URLs, auth tokens, chunk payload processing
- `connection`, `session`, `auth`, `runtime` — the session state machine,
  dispatch and routing decisions, logon outcomes, auth challenges,
  reconnect policy
- `pics`, `engine`, `commands`, `history`, `store`, `state` — product info,
  download planning, app details, manifest history, store search, settings
- `text`, `order`, `pattern` — string helpers, verified sorts and compiled
  regular expressions used by the above

Calls into outside crates (AES, CBC, base64, hex, SHA-1, RSA, zstd, LZMA, ZIP,
gzip, regex, JSON, time, URL encoding, `DashMap`) go through small trusted
wrappers whose contracts name what the crate returns.

`app/` is the unverified shell: the WebSocket and HTTP transports, protobuf
messages, the async download workers, files on disk and the command surface.
`tests/` exercise the library on concrete values.
