use nova_engine::data::loadout_catalog::LoadoutCatalog;
use nova_engine::data::module_catalog::ModuleCatalog;
use nova_engine::data::ship_catalog::ShipCatalog;
use nova_engine::domain::loadout::{ShipDefinition, ShipLoadout, SlotLoadout};
use nova_engine::domain::module::{ModuleArchetype, ModuleKind};

fn archetype(id: &str, display_name: &str, kind: ModuleKind, max_hp: u32) -> ModuleArchetype {
    ModuleArchetype {
        id: id.to_owned(),
        display_name: display_name.to_owned(),
        kind,
        max_hp,
        attributes: Vec::new(),
    }
}

fn hull(id: &str, grid_size: usize, max_modules: usize) -> ShipDefinition {
    ShipDefinition {
        id: id.to_owned(),
        display_name: id.to_owned(),
        grid_size,
        max_modules,
    }
}

fn entry(x: usize, y: usize, armor_layers: u8, module_id: Option<&str>) -> SlotLoadout {
    SlotLoadout {
        x,
        y,
        armor_layers,
        module_id: module_id.map(|m| m.to_owned()),
    }
}

fn loadout(id: &str, ship_id: &str, slots: Vec<SlotLoadout>) -> ShipLoadout {
    ShipLoadout {
        id: id.to_owned(),
        ship_id: ship_id.to_owned(),
        slots,
    }
}

#[test]
fn builds_corvette_single_gun_loadout() {
    let ships = ShipCatalog::from_ships(vec![ShipDefinition {
        id: "corvette".to_owned(),
        display_name: "Corvette".to_owned(),
        grid_size: 1,
        max_modules: 1,
    }])
    .expect("ship catalog should parse");
    let modules = ModuleCatalog::from_modules(vec![archetype("gun", "Gun", ModuleKind::Gun, 80)])
        .expect("module catalog should parse");
    let loadouts = LoadoutCatalog::from_loadouts(vec![loadout(
        "corvette_single_gun",
        "corvette",
        vec![entry(0, 0, 1, Some("gun"))],
    )])
    .expect("loadout catalog should parse");

    let ship = loadouts
        .instantiate_ship("corvette_single_gun", &ships, &modules)
        .expect("loadout should instantiate");
    assert_eq!(ship.size, 1);
    assert_eq!(ship.total_modules(), 1);

    let slot = ship.slot(0, 0).expect("slot should exist");
    assert_eq!(slot.armor_layers, 1);
    assert!(slot.module.is_some());
}

#[test]
fn parses_valid_module_catalog() {
    let catalog = ModuleCatalog::from_modules(vec![
        archetype("gun_light", "Light Gun", ModuleKind::Gun, 80),
        archetype("sensor_basic", "Basic Sensor", ModuleKind::Sensor, 60),
    ])
    .expect("catalog should parse");
    assert_eq!(catalog.module_count(), 2);
    assert!(catalog.get("gun_light").is_some());
}

#[test]
fn rejects_duplicate_ids() {
    let err = ModuleCatalog::from_modules(vec![
        archetype("dup", "A", ModuleKind::Gun, 10),
        archetype("dup", "B", ModuleKind::Sensor, 10),
    ])
    .expect_err("catalog should reject duplicates");
    assert!(err.contains("duplicate module id"));
    assert_eq!(err, "duplicate module id 'dup'");
}

#[test]
fn module_catalog_lookup_and_spawn() {
    let catalog = ModuleCatalog::from_modules(vec![
        archetype("gun", "Gun", ModuleKind::Gun, 80),
        archetype("shield", "Shield", ModuleKind::ShieldGenerator, 120),
    ])
    .expect("catalog should parse");
    let shield = catalog.get("shield").expect("shield is known");
    assert_eq!(shield.display_name, "Shield");
    assert_eq!(shield.kind, ModuleKind::ShieldGenerator);
    assert!(catalog.get("missile").is_none());
    let module = catalog.spawn_instance("shield").expect("shield is known");
    assert_eq!(module.archetype_id, "shield");
    assert_eq!(module.hp, 120);
    let err = catalog.spawn_instance("missile").expect_err("missile is unknown");
    assert_eq!(err, "unknown module id 'missile'");
}

#[test]
fn module_validation_messages() {
    assert_eq!(
        archetype("  \t", "Blank", ModuleKind::Utility, 5).validate(),
        Err("module id cannot be empty".to_owned())
    );
    assert_eq!(
        archetype("", "Empty", ModuleKind::Utility, 5).validate(),
        Err("module id cannot be empty".to_owned())
    );
    assert_eq!(
        archetype("x", "X", ModuleKind::Utility, 0).validate(),
        Err("module 'x' has invalid max_hp=0".to_owned())
    );
    assert_eq!(archetype(" x ", "X", ModuleKind::Utility, 1).validate(), Ok(()));
    let err = ModuleCatalog::from_modules(vec![
        archetype("a", "A", ModuleKind::Gun, 10),
        archetype("b", "B", ModuleKind::Gun, 0),
        archetype("a", "A", ModuleKind::Gun, 10),
    ])
    .expect_err("the invalid archetype comes first");
    assert_eq!(err, "module 'b' has invalid max_hp=0");
}

#[test]
fn ship_definition_validation_messages() {
    assert_eq!(hull("\u{3000}\n", 2, 1).validate(), Err("ship id cannot be empty".to_owned()));
    assert_eq!(hull("s", 0, 1).validate(), Err("ship 's' has invalid grid_size=0".to_owned()));
    assert_eq!(
        hull("s", 3, 0).validate(),
        Err("ship 's' has invalid max_modules=0, capacity=9".to_owned())
    );
    assert_eq!(
        hull("s", 3, 10).validate(),
        Err("ship 's' has invalid max_modules=10, capacity=9".to_owned())
    );
    assert_eq!(hull("s", 3, 9).validate(), Ok(()));
    assert_eq!(hull("s", 1, 1).validate(), Ok(()));
}

#[test]
fn slot_and_loadout_validation_messages() {
    assert_eq!(entry(4, 12, 3, None).validate(), Ok(()));
    assert_eq!(
        entry(4, 12, 4, None).validate(),
        Err("slot (4, 12) has invalid armor_layers=4 (max=3)".to_owned())
    );
    assert_eq!(
        loadout(" ", "hull", vec![]).validate(),
        Err("loadout id cannot be empty".to_owned())
    );
    assert_eq!(
        loadout("l", "", vec![]).validate(),
        Err("loadout 'l' has empty ship_id".to_owned())
    );
    assert_eq!(
        loadout("l", "hull", vec![entry(0, 0, 1, None), entry(1, 0, 200, None), entry(2, 0, 9, None)]).validate(),
        Err("slot (1, 0) has invalid armor_layers=200 (max=3)".to_owned())
    );
    assert_eq!(loadout("l", "hull", vec![entry(0, 0, 3, Some("gun"))]).validate(), Ok(()));
}

#[test]
fn ship_and_loadout_catalogs_reject_duplicates() {
    let err = ShipCatalog::from_ships(vec![hull("s", 1, 1), hull("s", 2, 2)]).expect_err("duplicate");
    assert_eq!(err, "duplicate ship id 's'");
    let err = LoadoutCatalog::from_loadouts(vec![loadout("l", "s", vec![]), loadout("l", "t", vec![])])
        .expect_err("duplicate");
    assert_eq!(err, "duplicate loadout id 'l'");
    let ships = ShipCatalog::from_ships(vec![hull("s", 1, 1), hull("t", 2, 2)]).expect("distinct ids");
    assert_eq!(ships.get("t").map(|d| d.grid_size), Some(2));
    assert!(ships.get("u").is_none());
}

fn fixtures() -> (ShipCatalog, ModuleCatalog) {
    let ships = ShipCatalog::from_ships(vec![hull("frigate", 2, 2)]).expect("valid hulls");
    let modules = ModuleCatalog::from_modules(vec![
        archetype("gun", "Gun", ModuleKind::Gun, 80),
        archetype("sensor", "Sensor", ModuleKind::Sensor, 40),
    ])
    .expect("valid modules");
    (ships, modules)
}

#[test]
fn instantiate_fills_named_cells_only() {
    let (ships, modules) = fixtures();
    let loadouts = LoadoutCatalog::from_loadouts(vec![loadout(
        "f",
        "frigate",
        vec![entry(1, 0, 2, Some("gun")), entry(0, 1, 3, None), entry(1, 1, 0, Some("sensor"))],
    )])
    .expect("valid loadout");
    let ship = loadouts.instantiate_ship("f", &ships, &modules).expect("fits");
    assert_eq!(ship.size, 2);
    assert_eq!(ship.slots.len(), 4);
    assert!(ship.slots[0].module.is_none());
    assert_eq!(ship.slots[0].armor_hp, 0);
    assert_eq!(ship.slots[1].armor_hp, 50);
    let gun = ship.slots[1].module.as_ref().expect("gun fitted");
    assert_eq!((gun.archetype_id.as_str(), gun.hp), ("gun", 80));
    assert_eq!(ship.slots[2].armor_layers, 3);
    assert!(ship.slots[2].module.is_none());
    let sensor = ship.slots[3].module.as_ref().expect("sensor fitted");
    assert_eq!((sensor.archetype_id.as_str(), sensor.hp), ("sensor", 40));
    assert_eq!(ship.total_modules(), 2);
}

#[test]
fn instantiate_errors() {
    let (ships, modules) = fixtures();
    let loadouts = LoadoutCatalog::from_loadouts(vec![
        loadout("outside", "frigate", vec![entry(0, 0, 0, None), entry(2, 1, 0, None)]),
        loadout("twice", "frigate", vec![entry(1, 1, 0, None), entry(1, 1, 1, Some("gun"))]),
        loadout("unknown_module", "frigate", vec![entry(0, 0, 0, Some("laser"))]),
        loadout("crowded", "frigate", vec![
            entry(0, 0, 0, Some("gun")),
            entry(1, 0, 0, Some("gun")),
            entry(0, 1, 0, Some("sensor")),
        ]),
        loadout("no_hull", "cruiser", vec![]),
    ])
    .expect("valid loadouts");
    let err = |id: &str| loadouts.instantiate_ship(id, &ships, &modules).expect_err("should fail");
    assert_eq!(err("missing"), "unknown loadout id 'missing'");
    assert_eq!(err("no_hull"), "unknown ship id 'cruiser'");
    assert_eq!(err("outside"), "loadout 'outside' has slot outside ship grid: (2, 1)");
    assert_eq!(err("twice"), "loadout 'twice' has duplicate slot entry at (1, 1)");
    assert_eq!(err("unknown_module"), "unknown module id 'laser'");
    assert_eq!(err("crowded"), "loadout 'crowded' has 3 modules, but ship 'frigate' supports at most 2");
}

#[test]
fn fitted_module_carries_the_loadout_module_id() {
    let (ships, modules) = fixtures();
    let loadouts = LoadoutCatalog::from_loadouts(vec![loadout("f", "frigate", vec![entry(0, 1, 1, Some("sensor"))])])
        .expect("valid loadout");
    let ship = loadouts.instantiate_ship("f", &ships, &modules).expect("fits");
    let module = ship.slot(0, 1).and_then(|s| s.module.as_ref()).expect("module fitted");
    assert_eq!(module.archetype_id, "sensor");
    assert_eq!(modules.get("sensor").map(|a| a.id.as_str()), Some("sensor"));
    assert_eq!(loadouts.get("f").map(|l| l.id.as_str()), Some("f"));
}

#[test]
fn catalogs_clone_with_the_same_records() {
    let (ships, modules) = fixtures();
    let loadouts = LoadoutCatalog::from_loadouts(vec![loadout("f", "frigate", vec![entry(1, 1, 2, Some("gun"))])])
        .expect("valid loadout");
    let ships2 = ships.clone();
    let modules2 = modules.clone();
    let loadouts2 = loadouts.clone();
    assert_eq!(modules2.module_count(), 2);
    assert_eq!(modules2.get("sensor").map(|a| a.max_hp), Some(40));
    assert_eq!(ships2.get("frigate").map(|d| d.max_modules), Some(2));
    let l = loadouts2.get("f").expect("loadout copied");
    assert_eq!((l.ship_id.as_str(), l.slots.len()), ("frigate", 1));
    assert_eq!(l.slots[0].module_id.as_deref(), Some("gun"));
    let ship = loadouts2.instantiate_ship("f", &ships2, &modules2).expect("fits");
    assert_eq!(ship.total_modules(), 1);
}

#[test]
fn archetype_attributes_are_kept() {
    let mut gun = archetype("gun", "Gun", ModuleKind::Gun, 80);
    gun.attributes = vec![("fire_rate".to_owned(), 1.8f32.to_bits()), ("range".to_owned(), 12.0f32.to_bits())];
    let catalog = ModuleCatalog::from_modules(vec![gun]).expect("valid catalog");
    let copy = catalog.clone();
    for c in [&catalog, &copy] {
        let a = c.get("gun").expect("gun is known");
        assert_eq!(a.attributes.len(), 2);
        assert_eq!(a.attributes[0].0, "fire_rate");
        assert_eq!(f32::from_bits(a.attributes[1].1), 12.0);
    }
}
