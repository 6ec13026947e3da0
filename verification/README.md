# read_receipts

Client-side computation of the unread counts of Matrix rooms, verified with Verus.

- `src/` is the library. `src/notifications.rs` holds the entry point, `compute_notifications`,
  and `try_compute_notifications` for counters that may overflow;
  `src/model.rs` says what it computes, and `src/laws.rs` what follows from that: that the counts
  stay accurate from sync to sync, that the active receipt only moves forward, that no receipt is
  lost.
- `app/` converts the types of `ruma`, and stores read receipts with `serde`.
- `tests/` runs the library on JSON events.

What is believed without proof stands in `src/unread.rs` and `src/timeline.rs` (the reading of
JSON by `ruma`), in `src/provider.rs` (the vector of `eyeball-im`) and in `src/text.rs` (equality
of string slices).
