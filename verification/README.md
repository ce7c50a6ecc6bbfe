# options_desk

An options portfolio library: positions kept as snapshots or trade logs,
FIFO / minimum-tax lot matching, realised gains by term and tax year,
what-if scenarios (trade cash, gains, assignments at expiry, covered-call
coverage), CSV import of broker lots, tax-profile revisions, tracked option
combinations, the data-entry forms (what a typed field reads as, and which
field is reported first), and the text formats the app reads and prints. Money is held as integer micros
(millionths of a dollar), so every figure is exact.

Layout:

- `src/` — the library, written in Verus: each public function carries a
  contract, and the proof functions (`lot_laws`, `laws`, and the round-trip
  lemmas beside their types) state what holds across functions.
- `tests/` — tests of the library on concrete values.
- `app/` — the browser side: service requests, JSON wire formats and
  conversions, and the floating-point pricing (Black-Scholes, Greeks).
