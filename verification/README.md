# rustlog_bot

The decisions of a chat logging bot, verified with Verus: which lines of chat are logged and how they
are identified, which commands are carried out and for whom, when the recent messages of a channel
are fetched, and which of them are stored.

- `src/` is the library. Each function states what it returns in its contract; the public proof
  functions state what holds of several calls together.
- `app/` connects the library to a chat server, to the service for recent messages, and to a storage
  that implements its `Host` trait.
- `tests/` runs the library on concrete values, with the crates that it calls.
