# sync_engine

Synchronises the ICS feeds of booking channels (Airbnb, Vrbo, Booking, ...)
with a SQLite store of reservations, removes cancelled reservations and
reports overbooking conflicts.

- `src/` is the verified library:
  - `text` — trimming, case-insensitive and ordered comparison of texts, decimal notation;
  - `parser` — reading reservation events out of an ICS feed (the `ical` and
    `chrono` crates are called behind trusted wrappers);
  - `sync` — the reconciliation of a channel as a step machine (`ChannelSync`):
    which reservations go, which events are stored, how conflicts are counted;
  - `scheduler`, `config`, `db`, `error` — the remaining rules and data types.
- `app/` is the program around it: configuration file, SQLite queries, HTTP,
  the periodic loop and logging.
- `tests/` exercise the library on concrete feeds and runs.
