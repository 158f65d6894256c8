# messenger_server

A small messenger server: accounts with bcrypt-hashed passwords and session
tokens, direct and group conversations, unread counters without read
receipts, blocking, account deletion, and search over users and message
history. Messages also travel live over a websocket.

## Layout

- `src/` — the library, verified with Verus. Every operation works on a
  `Store`, an in-memory copy of the database tables, and states in its
  contract what it answers and how the tables change.
  - `store.rs`, `tables.rs` — the tables, their abstract view and invariant
    (increasing ids, unique logins, tokens, read marks and memberships).
  - `accounts.rs`, `auth.rs`, `password.rs` — registration, login, sessions,
    bearer tokens, account deletion; hashing is done by the `bcrypt` crate.
  - `messaging.rs`, `groups.rs`, `socket.rs` — sending and reading messages,
    read marks, blocks, group chats, what a websocket message turns into.
  - `chats.rs`, `listing.rs`, `search.rs` — the chat list, user search and
    message search, with SQL `LIKE` matching and binary-collation ordering
    (`text.rs`, `sorting.rs`).
  - `laws.rs` — properties that span operations, proved as lemmas.
  - `config.rs`, `error.rs`, `models.rs` — settings, errors, request and
    answer types.
- `app/` — the HTTP and websocket server (axum), SQLite persistence
  (rusqlite), and the serde forms of the request and answer types.
- `tests/` — tests of the library on concrete values.

## API

`POST /api/register`, `POST /api/login`, `GET /api/search`,
`GET /api/history`, `GET /api/messages/search`, `GET /api/chats`,
`POST /api/groups`, `POST /api/block`, `POST /api/unblock`,
`POST /api/account/delete`, the websocket at `/ws?token=...`, and
`GET /health`. Requests other than registration and login carry
`Authorization: Bearer <token>`. The web client is served from `static/`.

Settings come from `PORT` (default 8080) and `DATABASE_PATH` (default
`data/chat.db`).
