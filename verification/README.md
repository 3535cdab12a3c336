# finplan_server

Server-side rules of a Monte Carlo retirement planner, written in Verus.

- `src/` is the verified library: request checks, access and billing policy,
  the job registry, session and credential handling, attempt throttles, the
  flattening of nested plan specifications (triggers, effects, amounts,
  distributions) into rows and their reading back, scenario copies, archive
  checks and what-if layers. Each public function states its result in
  `ensures`; the laws that relate several functions (for instance that rows
  written for a trigger, an effect or a whole event read back as what was
  written) are public proof functions.
- Calls into outside crates (bcrypt, argon2, jsonwebtoken, jiff, sha2,
  base64ct, rand, chrono, http) sit behind small trusted wrappers whose doc
  comments say what they claim.
- The plan compiler and the Monte Carlo simulation are not part of the
  library: they work in floating point through the engine crate. Of
  compilation only the date check is here (`archives::check_plan_dates`).
- `app/` is ordinary Rust around the library and is not verified. It holds
  the routes for authentication, entitlements, contact, scenario duplication
  and health, the job loop, and the wire shapes; the other routes of the
  server (accounts, assets, events, analysis, runs, archives, onboarding,
  parameters, reports) are not written there.
- `tests/` exercises the library on concrete values.
