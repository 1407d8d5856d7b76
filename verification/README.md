# F1 Stalker

Follows a Formula One season: the calendar with a countdown to the next session, the
drivers' and constructors' championships round by round, the pinned drivers' qualifying
grid, the weather of the race weekend, and notifications when the standings change or a
session is about to start. The data comes from the OpenF1 timing service and the Open-Meteo
forecast service.

The library (`src/`) is verified with Verus: every public function states what it returns
or changes, and the laws the program relies on (settings read back as written, cached rounds
come back as stored, standings listed by position, a notification sent once, ...) are proved
as proof functions beside the code they speak of.

- `src/records.rs`, `src/clock.rs`, `src/text.rs`, `src/order.rs`: the timing service's
  records, instants, text and stable sorting.
- `src/domain/`: calendar, countdown, season calendar, championship charts and standings,
  narratives, qualifying grid, weather choices, driver picker, pins, team and flag assets.
- `src/data/`: fetching a season's championship (as a state machine), cache policy and cache
  blobs, the weekend's weather and grid, geocoding and forecast windows.
- `src/db/`, `src/state/`, `src/debug/`: settings as stored, start-up progress, view state,
  what to refresh and what to notify, load states, the debug log.
- `app/`: a command-line front end (network, SQLite store, clock and time zone, floating-point
  weather values).
- `tests/`: tests of the library on concrete values.
