# nova_engine

The rules of the Nova Engine ship sandbox, verified with Verus.

- `src/domain/` — modules, ship slots and hit resolution (`Ship::apply_hit`),
  hulls and loadouts with their validation rules.
- `src/data/` — the module, hull and loadout catalogs (records by id, with
  duplicate and validity checks) and `LoadoutCatalog::instantiate_ship`.
- `src/sandbox.rs` — which slots fire and where a shot aims.
- `src/text.rs` — decimal rendering and blank-id detection for messages.
- `app/` — the egui window, RON file loading (serde mirrors of the
  records) and the floating-point geometry of the sandbox.
- `tests/` — scenarios for the rules above.
