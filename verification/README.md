# chat_worker

The backend of a chat application that runs as a Cloudflare worker: it stores
conversations in a D1 database, forwards a posted message with its conversation
to a chat-completion service, relays the streamed answer to the client, and
stores the complete answer once the stream ends.

- `src/` is the library, written in Verus and proved: the data model
  (`models`), the statements each request runs and what it answers (`api`,
  `api::repository`, `api::statement`, `api::errors`), the splitting of a
  server-sent event stream into its data lines and the buffer that gathers a
  streamed answer (`api::utils`).
- `app/` is the worker around it: routing, the database and the network, JSON
  payloads. It builds for `wasm32-unknown-unknown` only.
- `tests/` runs the library on concrete values.
