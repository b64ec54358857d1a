# enostr

A small Nostr client library, verified with Verus.

- `src/` is the verified library: events and filters, 32-byte public keys
  with their hex text, relay connection bookkeeping (status and
  statistics, sending and polling through a connection), the framing of
  client and relay messages, and a pool of relays with distinct urls that
  deduplicates the filters of new subscriptions against the active ones.
- `app/` holds the parts that talk to the outside world: opening websocket
  connections (`ewebsock`, `tokio-tungstenite`), the event database
  (`nostrdb`), JSON text through `serde`/`serde_json`, and error display.
- `tests/` exercises the library on concrete values.
