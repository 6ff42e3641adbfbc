use nova_engine::data::module_catalog::ModuleCatalog;
use nova_engine::domain::module::{ModuleArchetype, ModuleInstance, ModuleKind};
use nova_engine::domain::ship::{Ship, Slot};
use nova_engine::sandbox::gun_slots;

fn archetype(id: &str, kind: ModuleKind) -> ModuleArchetype {
    ModuleArchetype {
        id: id.to_owned(),
        display_name: id.to_owned(),
        kind,
        max_hp: 10,
        attributes: Vec::new(),
    }
}

fn module(id: &str, hp: u32) -> ModuleInstance {
    ModuleInstance {
        archetype_id: id.to_owned(),
        hp,
    }
}

#[test]
fn only_intact_known_guns_fire() {
    let catalog = ModuleCatalog::from_modules(vec![
        archetype("gun", ModuleKind::Gun),
        archetype("missiles", ModuleKind::MissileLauncher),
    ])
    .expect("valid catalog");
    let mut ship = Ship::new(3);
    ship.set_slot(0, 0, Slot::with_module(0, module("gun", 10))).unwrap();
    ship.set_slot(1, 0, Slot::with_module(0, module("gun", 0))).unwrap();
    ship.set_slot(2, 0, Slot::with_module(0, module("missiles", 10))).unwrap();
    ship.set_slot(0, 1, Slot::with_module(0, module("unknown", 10))).unwrap();
    ship.set_slot(2, 2, Slot::with_module(1, module("gun", 3))).unwrap();
    assert_eq!(gun_slots(&ship, Some(&catalog)), vec![0, 8]);
    assert!(gun_slots(&ship, None).is_empty());
}

#[test]
fn targets_lie_inside_the_ship() {
    let mut rng = rand::rng();
    let ship = Ship::new(3);
    let mut seen = [false; 9];
    for _ in 0..2000 {
        let idx = nova_engine::sandbox::choose_target(&mut rng, &ship).expect("ship has slots");
        assert!(idx < 9);
        seen[idx] = true;
    }
    assert!(seen.iter().all(|s| *s));
    let empty = Ship::new(0);
    assert!(nova_engine::sandbox::choose_target(&mut rng, &empty).is_none());
}

#[test]
fn volley_applies_hits_in_order() {
    let mut ship = Ship::new(2);
    ship.set_slot(0, 0, Slot::with_module(1, module("gun", 30))).unwrap();
    ship.set_slot(1, 0, Slot::with_module(0, module("gun", 5))).unwrap();
    let shots = vec![(0, true), (1, false), (0, true), (3, true), (7, true), (1, true)];
    nova_engine::sandbox::resolve_volley(&mut ship, &shots, 20);
    // Slot 0: armor 25 -> 5, then armor 0 and module 30 -> 15.
    assert_eq!(ship.slots[0].armor_hp, 0);
    assert_eq!(ship.slots[0].module.as_ref().unwrap().hp, 15);
    // Slot 1: only the last shot hits; the miss does nothing.
    assert_eq!(ship.slots[1].module.as_ref().unwrap().hp, 0);
    // Slot 3 is empty; index 7 lies past the last slot.
    assert!(ship.slots[3].module.is_none());
    assert_eq!(ship.slots.len(), 4);
}
