# ira

The verified core of the Ira game library's user interface. The GTK front
end shows games, menus, settings pages and progress strips; this crate holds
what those views decide — which games a list shows and in what order, which
entries a menu offers, what a settings page stages and what Save writes, how
a background pass picks its work — as functions with contracts proved by
Verus.

- `src/` — the library, one module per area (see `src/lib.rs`). Spec
  functions state what each result is; public `law_*` proof functions state
  the properties that hold across calls.
- `tests/` — tests of the library on concrete values.
- `app/` — the edges Verus does not check: reading sysfs and `statvfs`,
  the local clock, and the `f64` geometry of the hero logo and playtime
  input.
