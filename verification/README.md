# relaymail

The decisions of a chat mail client about its relays, verified with Verus: which transports
(IMAP and SMTP accounts) it has and how they are kept in sync between devices, what happens to a
queued message on its way to the SMTP server, which read receipts are sent, and which contacts are
told about a change of the relays.

- `src/` is the verified library. It does no I/O. Where sending or querying has to alternate with
  decisions, a job (`connect_job`, `send_job`, `mdn_job`, `keyupdate_job`, `send_round`) says after
  each event which action comes next.
- `app/` connects the library to SQLite, SMTP and JSON. What belongs to other parts of a chat core
  is asked for through the trait `Core`.
- `tests/` runs the library on examples.

What holds of every state and every course of a job is stated by the public proof functions whose
names begin with `law_`.
