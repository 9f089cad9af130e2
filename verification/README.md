# Set Desto

Set Desto sets EVE Online autopilot destinations for several
authenticated characters at once. It logs characters in through EVE SSO
(authorisation code with PKCE), resolves what the user types into an ESI
destination (numeric IDs, solar systems, NPC stations and station
shorthands, player structures), sends waypoints with a choice of route
modes, and can turn a pasted FOBScout export into the shortest open route
through the chosen systems.

## Layout

- `src/` is the library, written in Verus. Every function there carries a
  contract; Verus proves all of them except those of the few functions
  marked `#[verifier::external_body]`, which call into `url`, `base64`,
  `sha2`, `rand` and the standard library (URL building and parsing,
  base64, SHA-256, random bytes, the clock, Unicode letter and lower-case
  tables, `String::push`). Their contracts are trusted, not proved, and
  each says in its doc comment what it claims of the call.
  - `text`: the string helpers everything else is built on.
  - `destination`, `universe`, `lookup`: from typed input to a destination,
    and the ESI lookups as state machines that say which request comes next.
  - `fobscout`: the FOBScout export parser.
  - `sde`: the route map built from EVE's static data, breadth-first jump
    distances, and the exact open-route optimiser with its laws (every stop
    once, no shorter order, earliest stops among equals).
  - `rate_limit`: what an ESI response's limit headers mean for the next
    request.
  - `auth`: the SSO request, the browser's callback and access-token claims.
  - `config`, `models`, `session`, `sorting`, `dates`, `waypoints`,
    `waypoint_job`: the application's state and every user action on it.
    Favourites are saved with their optional nicknames.
- `app/` is the desktop program around the library: the egui window, the
  command line, logging, files, the OS keyring and the network.
- `tests/` runs the library on concrete values.
