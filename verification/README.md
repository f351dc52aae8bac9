# ping_agent_mail

A small local service through which long-running agents send progress
reports by mail (Cloudflare Email Sending API). The service owns the mail
routing and credentials; agents submit only a task id, a status, a summary
and optional details and progress.

- `src/` — the verified library (Verus):
  - `protocol` — requests, notifications and their size and line rules;
  - `config` — the service configuration and its checks;
  - `mail` — subject, text and HTML bodies (with HTML escaping), the send
    URL and payload, and the meaning of Cloudflare's answers;
  - `service` — routing, request-head checks, and the progress throttle;
  - `cli` — the client's `--name value` options;
  - `text` — character-level helpers (white space, UTF-8 lengths, decimals).
- `app/` — the program: HTTP server and client, file reading, JSON/TOML.
- `tests/` — tests of the library.
