# pebble

The decision logic of a desktop mail client, verified with Verus, and the
thin layer of ordinary Rust that carries those decisions out.

## Layout

- `src/` — the verified library. Every function states what it returns in
  `requires`/`ensures` over spec functions, and the properties that span
  several calls are stated and proved as `lemma_*` proof functions.
  - `window_state` — whether a remembered window place can be put back on the
    displays attached now, the calls that put it back and their order, and the
    writer that collapses a drag into one write.
  - `mailto`, `text` — recognising, trimming and deduplicating `mailto:` links,
    and the queue they wait in until the interface takes them.
  - `shell`, `startup` — the tray menu and icon, the main window's events,
    quitting, the search-index rebuild decision, the Wayland preference and
    startup phase timings.
  - `reconcile`, `model` — replacing an IMAP mailbox after its UIDVALIDITY
    changed: which stored identity a fresh message may keep, and what becomes
    of every stored message.
  - `messages`, `flags`, `unread`, `threads`, `placeholders` — the message
    store's rules: batch answers, chunked deletes, flag-update statements, the
    unread predicates and queries, thread summaries, numbered SQL parameters.
  - `migrations`, `account_colors` — which schema migrations run and what they
    record, and the colours given to accounts that have none.
- `tests/` — tests run against the compiled library.
- `app/` — the SQLite store, the migrations, the window-state file and writer
  thread, and the link queue, driving the library's decisions.
