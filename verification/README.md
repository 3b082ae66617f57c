# implore

The core of a small app for keeping prayer intentions: intentions with
schedules and a prayer log, daily reminder digests, the US liturgical
calendar (temporal cycle), and private account sync through a small server.
The library is written in Verus: its functions carry `requires`/`ensures`
contracts over a mathematical model, and Verus proves them.

## Layout

- `src/calendar.rs` — the proleptic Gregorian calendar as spec functions
  (month lengths, day numbers, carrying and borrowing days, Zeller's
  congruence) and the lemmas that connect them.
- `src/reminder.rs` — civil dates, date arithmetic, the due rules of each
  cadence, the day list, the calendar range and the reminder-digest plan.
- `src/liturgical.rs` — Easter (Gregorian computus), the movable feasts, the
  weeks of Ordinary Time and the liturgical day of any date of years
  1 to 5,874,687.
- `src/prayer_log.rs` — the log of when an intention was prayed.
- `src/text.rs` — Unicode trimming, truncation by characters and decimal
  formatting.
- `src/account.rs` — sessions, e-mail checks and the messages shown for
  failed requests.
- `src/app.rs` — the model, events, effects and view model of the app core,
  and input normalisation.
- `src/update.rs` — the transition function (`transition`) and
  `Implore::update`, which is proved to follow it.
- `src/view_model.rs` — the view model (`view_of`) and `Implore::view`.
- `src/server.rs` — the decisions of the sync server: credential checks,
  bearer tokens, password hashing and checking, session tokens, and the
  version stamp of sync documents.
- `src/properties.rs` — properties that span several functions or calls
  (persistence round trip, last-writer-wins sync, fresh ids, the day-list
  order, reminder plans, date arithmetic).
- `app/` — the programs around the library: the sync server (axum and
  SQLite) in `app/main.rs`, and the Crux shell of the app core, with the
  serialisable copies of the core's types, in `app/shell.rs`.
- `tests/` — tests of the library on concrete values.
