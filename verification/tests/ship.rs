use nova_engine::domain::module::ModuleInstance;
use nova_engine::domain::ship::{HitReport, Ship, Slot, ARMOR_HP_PER_LAYER, MAX_ARMOR_LAYERS};

fn module_with_hp(id: &str, hp: u32) -> ModuleInstance {
    ModuleInstance {
        archetype_id: id.to_owned(),
        hp,
    }
}

#[test]
fn armor_absorbs_damage_before_module_hp() {
    let mut ship = Ship::new(1);
    ship.set_slot(0, 0, Slot::with_module(2, module_with_hp("gun", 50)))
        .expect("slot should be valid");

    let report = ship.apply_hit(0, 30).expect("slot index should be valid");
    let slot = ship.slot(0, 0).expect("slot should exist");
    let module = slot.module.as_ref().expect("module should exist");

    assert_eq!(report.armor_damage, 30);
    assert_eq!(report.module_damage, 0);
    assert_eq!(module.hp, 50);
    assert_eq!(slot.armor_hp, 20);
}

#[test]
fn module_destroys_when_hp_reaches_zero() {
    let mut ship = Ship::new(1);
    ship.set_slot(0, 0, Slot::with_module(0, module_with_hp("sensor", 40)))
        .expect("slot should be valid");

    let report = ship.apply_hit(0, 40).expect("slot index should be valid");
    let slot = ship.slot(0, 0).expect("slot should exist");
    let module = slot.module.as_ref().expect("module should exist");

    assert_eq!(report.module_damage, 40);
    assert!(report.module_destroyed);
    assert_eq!(module.hp, 0);
}

#[test]
fn explodes_when_destroyed_modules_reach_75_percent() {
    let mut ship = Ship::new(2);
    ship.set_slot(0, 0, Slot::with_module(0, module_with_hp("m1", 0)))
        .expect("slot should be valid");
    ship.set_slot(1, 0, Slot::with_module(0, module_with_hp("m2", 0)))
        .expect("slot should be valid");
    ship.set_slot(0, 1, Slot::with_module(0, module_with_hp("m3", 0)))
        .expect("slot should be valid");
    ship.set_slot(1, 1, Slot::with_module(0, module_with_hp("m4", 10)))
        .expect("slot should be valid");

    assert_eq!(ship.destroyed_modules(), 3);
    assert_eq!(ship.total_modules(), 4);
    assert!(ship.is_exploded());
}

#[test]
fn empty_slot_clamps_armor_layers() {
    let slot = Slot::empty(7);
    assert_eq!(slot.armor_layers, MAX_ARMOR_LAYERS);
    assert_eq!(slot.armor_hp, 75);
    assert!(slot.module.is_none());
    let slot = Slot::empty(2);
    assert_eq!(slot.armor_layers, 2);
    assert_eq!(slot.armor_hp, 2 * ARMOR_HP_PER_LAYER);
}

#[test]
fn with_module_keeps_module_and_clamped_armor() {
    let slot = Slot::with_module(9, module_with_hp("gun", 12));
    assert_eq!(slot.armor_layers, 3);
    assert_eq!(slot.armor_hp, 75);
    let module = slot.module.as_ref().expect("module should exist");
    assert_eq!(module.archetype_id, "gun");
    assert_eq!(module.hp, 12);
}

#[test]
fn new_ship_has_empty_grid() {
    let ship = Ship::new(3);
    assert_eq!(ship.size, 3);
    assert_eq!(ship.slots.len(), 9);
    assert!(ship.slots.iter().all(|s| s.module.is_none() && s.armor_layers == 0 && s.armor_hp == 0));
    assert_eq!(ship.total_modules(), 0);
    assert_eq!(ship.destroyed_modules(), 0);
    assert!(!ship.is_exploded());
}

#[test]
fn index_of_is_row_major_and_bounded() {
    let ship = Ship::new(3);
    assert_eq!(ship.index_of(0, 0), Some(0));
    assert_eq!(ship.index_of(2, 0), Some(2));
    assert_eq!(ship.index_of(1, 2), Some(7));
    assert_eq!(ship.index_of(3, 0), None);
    assert_eq!(ship.index_of(0, 3), None);
}

#[test]
fn cell_of_inverts_index_of() {
    let ship = Ship::new(4);
    for y in 0..4 {
        for x in 0..4 {
            let idx = ship.index_of(x, y).expect("cell in grid");
            assert_eq!(ship.cell_of(idx), (x, y));
        }
    }
    assert_eq!(ship.cell_of(9), (1, 2));
}

#[test]
fn set_slot_outside_grid_fails_with_message() {
    let mut ship = Ship::new(2);
    let err = ship.set_slot(2, 5, Slot::empty(1)).expect_err("cell is outside");
    assert_eq!(err, "slot coordinates out of bounds: (2, 5)");
    assert!(ship.slots.iter().all(|s| s.armor_layers == 0));
    assert!(ship.slot(2, 0).is_none());
}

#[test]
fn slot_mut_changes_the_cell() {
    let mut ship = Ship::new(2);
    {
        let slot = ship.slot_mut(1, 1).expect("cell in grid");
        slot.armor_hp = 5;
    }
    assert_eq!(ship.slots[3].armor_hp, 5);
    assert!(ship.slot_mut(0, 2).is_none());
}

#[test]
fn hit_on_empty_slot_changes_nothing() {
    let mut ship = Ship::new(1);
    ship.set_slot(0, 0, Slot::empty(3)).expect("slot should be valid");
    let report = ship.apply_hit(0, 40).expect("slot index should be valid");
    assert_eq!(
        report,
        HitReport {
            slot_index: 0,
            target_had_module: false,
            armor_damage: 0,
            module_damage: 0,
            module_destroyed: false,
        }
    );
    assert_eq!(ship.slots[0].armor_hp, 75);
}

#[test]
fn hit_past_last_slot_is_refused() {
    let mut ship = Ship::new(2);
    assert!(ship.apply_hit(4, 10).is_none());
    assert!(ship.slots.iter().all(|s| s.armor_hp == 0));
}

#[test]
fn hit_splits_damage_between_armor_and_module() {
    let mut ship = Ship::new(1);
    ship.set_slot(0, 0, Slot::with_module(1, module_with_hp("gun", 30)))
        .expect("slot should be valid");
    let report = ship.apply_hit(0, 40).expect("slot index should be valid");
    assert_eq!(report.armor_damage, 25);
    assert_eq!(report.module_damage, 15);
    assert!(!report.module_destroyed);
    assert_eq!(ship.slots[0].armor_hp, 0);
    assert_eq!(ship.slots[0].module.as_ref().unwrap().hp, 15);
    // Overkill: the module takes only what it has left.
    let report = ship.apply_hit(0, 100).expect("slot index should be valid");
    assert_eq!(report.armor_damage, 0);
    assert_eq!(report.module_damage, 15);
    assert!(report.module_destroyed);
    assert_eq!(ship.slots[0].module.as_ref().unwrap().hp, 0);
}

#[test]
fn hit_on_destroyed_module_reports_it_destroyed_again() {
    let mut ship = Ship::new(1);
    ship.set_slot(0, 0, Slot::with_module(0, module_with_hp("gun", 0)))
        .expect("slot should be valid");
    let report = ship.apply_hit(0, 5).expect("slot index should be valid");
    assert_eq!(report.module_damage, 0);
    assert!(report.module_destroyed);
    // A zero-damage hit does not reach the module.
    let report = ship.apply_hit(0, 0).expect("slot index should be valid");
    assert!(!report.module_destroyed);
}

#[test]
fn hits_never_repair_and_exploded_ship_stays_exploded() {
    let mut ship = Ship::new(2);
    for (i, hp) in [10u32, 10, 10, 10].iter().enumerate() {
        ship.set_slot(i % 2, i / 2, Slot::with_module(1, module_with_hp("m", *hp)))
            .expect("slot should be valid");
    }
    let total = ship.total_modules();
    let mut destroyed = ship.destroyed_modules();
    let mut exploded = ship.is_exploded();
    for round in 0..12 {
        ship.apply_hit(round % 4, 20).expect("slot index should be valid");
        assert_eq!(ship.total_modules(), total);
        assert!(ship.destroyed_modules() >= destroyed);
        if exploded {
            assert!(ship.is_exploded());
        }
        destroyed = ship.destroyed_modules();
        exploded = ship.is_exploded();
    }
    assert!(exploded);
}

#[test]
fn not_exploded_below_three_quarters() {
    let mut ship = Ship::new(2);
    ship.set_slot(0, 0, Slot::with_module(0, module_with_hp("m1", 0))).unwrap();
    ship.set_slot(1, 0, Slot::with_module(0, module_with_hp("m2", 0))).unwrap();
    ship.set_slot(0, 1, Slot::with_module(0, module_with_hp("m3", 5))).unwrap();
    ship.set_slot(1, 1, Slot::with_module(0, module_with_hp("m4", 10))).unwrap();
    assert_eq!(ship.destroyed_modules(), 2);
    assert!(!ship.is_exploded());
}

#[test]
fn module_instance_destroyed_at_zero_hp() {
    assert!(module_with_hp("a", 0).is_destroyed());
    assert!(!module_with_hp("a", 1).is_destroyed());
}
