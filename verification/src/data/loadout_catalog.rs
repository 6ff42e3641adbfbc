use std::collections::HashSet;
use vstd::prelude::*;

use crate::domain::loadout::lemma_loadout_valid;
use crate::domain::ship::MAX_ARMOR_LAYERS;
use crate::text::is_blank_spec;

use crate::data::index::{Keyed, all_valid, build_spec, distinct_keys, lemma_build_accepts, lemma_map_of, map_of, IdIndex};
use crate::data::module_catalog::{unknown_module_message, ModuleCatalog};
use crate::data::ship_catalog::ShipCatalog;
use crate::domain::loadout::{ShipDefinition, ShipLoadout, SlotLoadout};
use crate::domain::module::{ModuleArchetype, ModuleInstance};
use crate::domain::ship::{
    empty_slot_spec, lemma_cell_in_grid, lemma_cell_index_roundtrip, lemma_module_count_update, lemma_new_ship_intact, module_count,
    Ship, Slot,
};
use crate::text::{decimal, decimal_string};

verus! {

/// The loadouts by id.
#[derive(Debug)]
pub struct LoadoutCatalog {
    by_id: IdIndex<ShipLoadout>,
}

impl Clone for LoadoutCatalog {
    /// A catalog with copies of the same loadouts under the same ids.
    fn clone(&self) -> (r: Self)
        ensures
            r@.dom() == self@.dom(),
            forall|k: Seq<char>| #[trigger] self@.contains_key(k) ==> {
                &&& r@[k].id == self@[k].id
                &&& r@[k].ship_id == self@[k].ship_id
                &&& r@[k].slots@ == self@[k].slots@
            },
    {
        let by_id = self.by_id.copy_index();
        LoadoutCatalog { by_id }
    }
}

impl View for LoadoutCatalog {
    type V = Map<Seq<char>, ShipLoadout>;

    closed spec fn view(&self) -> Map<Seq<char>, ShipLoadout> {
        self.by_id@
    }
}

/// Whether a slot entry names a cell inside a grid of side `size`.
pub open spec fn in_grid(c: SlotLoadout, size: usize) -> bool {
    c.x < size && c.y < size
}

/// Index of the cell a slot entry names, in a grid of side `size`.
pub open spec fn cell_index(c: SlotLoadout, size: usize) -> int {
    c.y * size + c.x
}

/// Message for a slot entry outside the grid.
pub open spec fn outside_grid_message(loadout_id: Seq<char>, c: SlotLoadout) -> Seq<char> {
    "loadout '"@ + loadout_id + "' has slot outside ship grid: ("@ + decimal(c.x as nat) + ", "@
        + decimal(c.y as nat) + ")"@
}

/// Message for a second slot entry on the same cell.
pub open spec fn duplicate_cell_message(loadout_id: Seq<char>, c: SlotLoadout) -> Seq<char> {
    "loadout '"@ + loadout_id + "' has duplicate slot entry at ("@ + decimal(c.x as nat) + ", "@
        + decimal(c.y as nat) + ")"@
}

/// Message for a loadout with more modules than its hull carries.
pub open spec fn too_many_modules_message(loadout_id: Seq<char>, count: nat, ship: ShipDefinition) -> Seq<char> {
    "loadout '"@ + loadout_id + "' has "@ + decimal(count) + " modules, but ship '"@ + ship.id@
        + "' supports at most "@ + decimal(ship.max_modules as nat)
}

/// Message for an unknown loadout id.
pub open spec fn unknown_loadout_message(id: Seq<char>) -> Seq<char> {
    "unknown loadout id '"@ + id + "'"@
}

/// Message for an unknown hull id.
pub open spec fn unknown_ship_message(id: Seq<char>) -> Seq<char> {
    "unknown ship id '"@ + id + "'"@
}

/// What is wrong with slot entry `j` of `cfgs`, given that the entries
/// before it are fine: it lies outside the grid, it names the cell of an
/// earlier entry, or it names a module the catalog lacks, checked in that
/// order.
pub open spec fn entry_error(
    loadout_id: Seq<char>,
    cfgs: Seq<SlotLoadout>,
    j: int,
    size: usize,
    modules: Map<Seq<char>, ModuleArchetype>,
) -> Option<Seq<char>> {
    let c = cfgs[j];
    if !in_grid(c, size) {
        Some(outside_grid_message(loadout_id, c))
    } else if exists|k: int| 0 <= k < j && #[trigger] cfgs[k].x == c.x && cfgs[k].y == c.y {
        Some(duplicate_cell_message(loadout_id, c))
    } else {
        match c.module_id {
            Some(m) => if modules.contains_key(m@) {
                None
            } else {
                Some(unknown_module_message(m@))
            },
            None => None,
        }
    }
}

/// The error of the first failing entry among the first `n` entries.
pub open spec fn first_entry_error(
    loadout_id: Seq<char>,
    cfgs: Seq<SlotLoadout>,
    n: int,
    size: usize,
    modules: Map<Seq<char>, ModuleArchetype>,
) -> Option<Seq<char>>
    decreases n,
{
    if n <= 0 {
        None
    } else {
        match first_entry_error(loadout_id, cfgs, n - 1, size, modules) {
            Some(e) => Some(e),
            None => entry_error(loadout_id, cfgs, n - 1, size, modules),
        }
    }
}

/// Number of slot entries that name a module.
pub open spec fn module_entries(cfgs: Seq<SlotLoadout>) -> nat
    decreases cfgs.len(),
{
    if cfgs.len() == 0 {
        0
    } else {
        module_entries(cfgs.drop_last()) + if cfgs.last().module_id is Some { 1nat } else { 0nat }
    }
}

/// Why `loadout` cannot be built on `ship` with `modules`, if it cannot:
/// the first failing slot entry, else too many modules for the hull.
pub open spec fn instantiate_error(
    loadout: ShipLoadout,
    ship: ShipDefinition,
    modules: Map<Seq<char>, ModuleArchetype>,
) -> Option<Seq<char>> {
    match first_entry_error(loadout.id@, loadout.slots@, loadout.slots@.len() as int, ship.grid_size, modules) {
        Some(e) => Some(e),
        None => if module_entries(loadout.slots@) > ship.max_modules {
            Some(too_many_modules_message(loadout.id@, module_entries(loadout.slots@), ship))
        } else {
            None
        },
    }
}

/// The slot a slot entry puts in its cell: its armor, clamped, and a fresh
/// module of the named archetype.
pub open spec fn configured_slot(c: SlotLoadout, modules: Map<Seq<char>, ModuleArchetype>) -> Slot {
    match c.module_id {
        Some(m) => Slot {
            module: Some(ModuleInstance { archetype_id: modules[m@].id, hp: modules[m@].max_hp }),
            ..empty_slot_spec(c.armor_layers)
        },
        None => empty_slot_spec(c.armor_layers),
    }
}

/// `ship` is the hull of side `size` fitted with the first `n` entries of
/// `cfgs`: each named cell holds its configured slot, every other cell an
/// empty unarmored slot.
pub open spec fn fitted_with(
    ship: Ship,
    cfgs: Seq<SlotLoadout>,
    n: int,
    size: usize,
    modules: Map<Seq<char>, ModuleArchetype>,
) -> bool {
    &&& ship.size == size
    &&& ship.slots@.len() == size * size
    &&& forall|j: int| 0 <= j < n ==> ship.slots@[#[trigger] cell_index(cfgs[j], size)] == configured_slot(cfgs[j], modules)
    &&& forall|k: int| 0 <= k < size * size && (forall|j: int| 0 <= j < n ==> #[trigger] cell_index(cfgs[j], size) != k)
        ==> ship.slots@[k] == empty_slot_spec(0)
}

/// In a fitted ship, each named cell has the entry's armor, at most three
/// layers of 25 hit points each, and a module exactly when the entry names
/// one, fresh at the archetype's full hit points; every other cell is bare.
pub proof fn lemma_fitted_cells(
    ship: Ship,
    cfgs: Seq<SlotLoadout>,
    n: int,
    size: usize,
    modules: Map<Seq<char>, ModuleArchetype>,
)
    requires
        fitted_with(ship, cfgs, n, size, modules),
    ensures
        forall|j: int| #![trigger cfgs[j]] 0 <= j < n ==> {
            let c = cfgs[j];
            let s = ship.slots@[cell_index(c, size)];
            &&& s.armor_layers == (if c.armor_layers <= 3 { c.armor_layers } else { 3 })
            &&& s.armor_hp == 25 * s.armor_layers
            &&& (s.module is Some <==> c.module_id is Some)
            &&& c.module_id is Some ==> (s.module->0).hp == modules[(c.module_id->0)@].max_hp
        },
        forall|k: int| 0 <= k < size * size && (forall|j: int| 0 <= j < n ==> #[trigger] cell_index(cfgs[j], size) != k)
            ==> {
            &&& ship.slots@[k].module is None
            &&& ship.slots@[k].armor_layers == 0
            &&& ship.slots@[k].armor_hp == 0
        },
{
    assert forall|j: int| #![trigger cfgs[j]] 0 <= j < n implies {
        let c = cfgs[j];
        let s = ship.slots@[cell_index(c, size)];
        &&& s.armor_layers == (if c.armor_layers <= 3 { c.armor_layers } else { 3 })
        &&& s.armor_hp == 25 * s.armor_layers
        &&& (s.module is Some <==> c.module_id is Some)
        &&& c.module_id is Some ==> (s.module->0).hp == modules[(c.module_id->0)@].max_hp
    } by {
        assert(ship.slots@[cell_index(cfgs[j], size)] == configured_slot(cfgs[j], modules));
    }
}

/// Two cells inside a grid have the same index exactly when they have the
/// same coordinates.
proof fn lemma_cell_index_injective(a: SlotLoadout, b: SlotLoadout, size: usize)
    requires
        in_grid(a, size),
        in_grid(b, size),
    ensures
        cell_index(a, size) == cell_index(b, size) <==> (a.x == b.x && a.y == b.y),
{
    lemma_cell_index_roundtrip(a.x as int, a.y as int, size as int);
    lemma_cell_index_roundtrip(b.x as int, b.y as int, size as int);
}

/// Once an entry fails, later entries do not change the first error.
proof fn lemma_first_entry_error_stays(
    loadout_id: Seq<char>,
    cfgs: Seq<SlotLoadout>,
    n: int,
    m: int,
    size: usize,
    modules: Map<Seq<char>, ModuleArchetype>,
)
    requires
        0 <= n <= m,
        first_entry_error(loadout_id, cfgs, n, size, modules) is Some,
    ensures
        first_entry_error(loadout_id, cfgs, m, size, modules) == first_entry_error(loadout_id, cfgs, n, size, modules),
    decreases m - n,
{
    if n < m {
        lemma_first_entry_error_stays(loadout_id, cfgs, n, m - 1, size, modules);
    }
}

/// Renders `outside_grid_message` or `duplicate_cell_message`.
fn cell_error_text(loadout_id: &String, middle: &str, c: &SlotLoadout) -> (s: String)
    ensures
        s@ == "loadout '"@ + loadout_id@ + middle@ + decimal(c.x as nat) + ", "@ + decimal(c.y as nat) + ")"@,
{
    let mut s = String::from_str("loadout '");
    s.append(loadout_id.as_str());
    s.append(middle);
    s.append(decimal_string(c.x as u128).as_str());
    s.append(", ");
    s.append(decimal_string(c.y as u128).as_str());
    s.append(")");
    s
}

/// Renders `too_many_modules_message`.
fn too_many_modules_text(loadout_id: &String, count: usize, ship: &ShipDefinition) -> (s: String)
    ensures
        s@ == too_many_modules_message(loadout_id@, count as nat, *ship),
{
    let mut s = String::from_str("loadout '");
    s.append(loadout_id.as_str());
    s.append("' has ");
    s.append(decimal_string(count as u128).as_str());
    s.append(" modules, but ship '");
    s.append(ship.id.as_str());
    s.append("' supports at most ");
    s.append(decimal_string(ship.max_modules as u128).as_str());
    s
}

/// Renders `prefix`, then `id`, then a closing quote.
fn unknown_id_text(prefix: &str, id: &str) -> (s: String)
    ensures
        s@ == prefix@ + id@ + "'"@,
{
    let mut s = String::from_str(prefix);
    s.append(id);
    s.append("'");
    s
}

impl LoadoutCatalog {
    /// Builds the catalog from loadouts read in order. It fails with the
    /// message of the first loadout that is invalid or repeats an earlier
    /// id; it succeeds exactly when all are valid and their ids distinct,
    /// and then holds each loadout under its id.
    pub fn from_loadouts(loadouts: Vec<ShipLoadout>) -> (r: Result<Self, String>)
        ensures
            r is Ok <==> all_valid(loadouts@) && distinct_keys(loadouts@),
            r matches Ok(c) ==> c@ == map_of(loadouts@),
            r is Ok ==> forall|i: int| #![trigger loadouts@[i]] 0 <= i < loadouts@.len() ==> !is_blank_spec(loadouts@[i].id@) && !is_blank_spec(loadouts@[i].ship_id@) && forall|k: int|
                0 <= k < loadouts@[i].slots@.len() ==> (#[trigger] loadouts@[i].slots@[k]).armor_layers <= MAX_ARMOR_LAYERS,
            r matches Ok(c) ==> forall|k: Seq<char>|
                c@.contains_key(k) <==> exists|i: int| 0 <= i < loadouts@.len() && #[trigger] loadouts@[i].id@ == k,
            r matches Ok(c) ==> forall|i: int|
                0 <= i < loadouts@.len() ==> c@[#[trigger] loadouts@[i].id@] == loadouts@[i],
            r matches Err(e) ==> build_spec(loadouts@) == Err::<Map<Seq<char>, ShipLoadout>, Seq<char>>(e@),
    {
        proof {
            lemma_build_accepts(loadouts@);
            lemma_map_of(loadouts@);
            if all_valid(loadouts@) {
                assert forall|i: int| #![trigger loadouts@[i]] 0 <= i < loadouts@.len() implies !is_blank_spec(loadouts@[i].id@) && !is_blank_spec(loadouts@[i].ship_id@) && forall|k: int|
                0 <= k < loadouts@[i].slots@.len() ==> (#[trigger] loadouts@[i].slots@[k]).armor_layers <= MAX_ARMOR_LAYERS by {
                    lemma_loadout_valid(loadouts@[i]);
                    assert(loadouts@[i].check_spec() is Ok);
                }
            }
            let m = map_of(loadouts@);
            assert forall|k: Seq<char>|
                m.contains_key(k) <==> exists|i: int| 0 <= i < loadouts@.len() && #[trigger] loadouts@[i].id@ == k by {
                if exists|i: int| 0 <= i < loadouts@.len() && #[trigger] loadouts@[i].id@ == k {
                    let i = choose|i: int| 0 <= i < loadouts@.len() && #[trigger] loadouts@[i].id@ == k;
                    assert(loadouts@[i].key_view() == k);
                }
                if m.contains_key(k) {
                    let i = choose|i: int| 0 <= i < loadouts@.len() && #[trigger] loadouts@[i].key_view() == k;
                    assert(loadouts@[i].id@ == k);
                }
            }
            if distinct_keys(loadouts@) {
                assert forall|i: int| 0 <= i < loadouts@.len() implies m[#[trigger] loadouts@[i].id@] == loadouts@[i] by {
                    assert(loadouts@[i].key_view() == loadouts@[i].id@);
                }
            }
        }
        match IdIndex::build(loadouts) {
            Ok(by_id) => Ok(LoadoutCatalog { by_id }),
            Err(e) => Err(e),
        }
    }

    /// The loadout with id `id`, if any.
    pub fn get(&self, id: &str) -> (r: Option<&ShipLoadout>)
        ensures
            r is Some <==> self@.contains_key(id@),
            r matches Some(l) ==> *l == self@[id@] && l.id@ == id@,
    {
        self.by_id.get(id)
    }

    /// The catalog holds each record under the record's own id.
    pub proof fn lemma_ids_match(&self)
        ensures
            forall|k: Seq<char>| #[trigger] self@.contains_key(k) ==> self@[k].id@ == k,
    {
        self.by_id.lemma_keys_match();
        assert forall|k: Seq<char>| #[trigger] self@.contains_key(k) implies self@[k].id@ == k by {
            assert(self@[k].key_view() == k);
        }
    }

    /// Builds the ship that loadout `loadout_id` describes: the loadout's
    /// hull, with each slot entry's armor and a fresh module of the named
    /// archetype in its cell and every other cell empty.
    ///
    /// Fails on an unknown loadout or hull, on the first slot entry that lies
    /// outside the grid, repeats a cell or names an unknown module, and on a
    /// loadout with more modules than the hull carries.
    pub fn instantiate_ship(
        &self,
        loadout_id: &str,
        ship_catalog: &ShipCatalog,
        module_catalog: &ModuleCatalog,
    ) -> (r: Result<Ship, String>)
        requires
            self@.contains_key(loadout_id@) && ship_catalog@.contains_key(self@[loadout_id@].ship_id@)
                ==> ship_catalog@[self@[loadout_id@].ship_id@].grid_size
                * ship_catalog@[self@[loadout_id@].ship_id@].grid_size <= usize::MAX,
        ensures
            !self@.contains_key(loadout_id@) ==> (r matches Err(e) && e@ == unknown_loadout_message(loadout_id@)),
            self@.contains_key(loadout_id@) && !ship_catalog@.contains_key(self@[loadout_id@].ship_id@)
                ==> (r matches Err(e) && e@ == unknown_ship_message(self@[loadout_id@].ship_id@)),
            self@.contains_key(loadout_id@) && ship_catalog@.contains_key(self@[loadout_id@].ship_id@) ==> ({
                let loadout = self@[loadout_id@];
                let hull = ship_catalog@[loadout.ship_id@];
                match instantiate_error(loadout, hull, module_catalog@) {
                    Some(msg) => (r matches Err(e) && e@ == msg),
                    None => (r matches Ok(ship) && fitted_with(
                        ship,
                        loadout.slots@,
                        loadout.slots@.len() as int,
                        hull.grid_size,
                        module_catalog@,
                    ) && module_count(ship.slots@) == module_entries(loadout.slots@)
                        && module_count(ship.slots@) <= hull.max_modules
                        && forall|j: int|
                        0 <= j < loadout.slots@.len() && #[trigger] loadout.slots@[j].module_id is Some ==> {
                            let named = loadout.slots@[j].module_id->0;
                            &&& ship.slots@[cell_index(loadout.slots@[j], hull.grid_size)].module matches Some(m)
                            &&& m.archetype_id@ == named@
                            &&& m.hp == module_catalog@[named@].max_hp
                        }),
                }
            }),
    {
        broadcast use vstd::std_specs::hash::group_hash_axioms;

        let loadout = match self.get(loadout_id) {
            Some(l) => l,
            None => {
                return Err(unknown_id_text("unknown loadout id '", loadout_id));
            },
        };
        let ship_def = match ship_catalog.get(loadout.ship_id.as_str()) {
            Some(d) => d,
            None => {
                return Err(unknown_id_text("unknown ship id '", loadout.ship_id.as_str()));
            },
        };
        let size = ship_def.grid_size;
        let mut ship = Ship::new(size);
        proof {
            lemma_new_ship_intact(ship.slots@);
        }
        let cell_count = size * size;
        let mut used: HashSet<usize> = HashSet::new();

        let ghost cfgs = loadout.slots@;
        let ghost lid = loadout.id@;
        let ghost modules = module_catalog@;
        let mut fitted_modules: usize = 0;
        let mut i: usize = 0;
        while i < loadout.slots.len()
            invariant
                cfgs == loadout.slots@,
                lid == loadout.id@,
                self@.contains_key(loadout_id@),
                *loadout == self@[loadout_id@],
                ship_catalog@.contains_key(loadout.ship_id@),
                *ship_def == ship_catalog@[loadout.ship_id@],
                size == ship_def.grid_size,
                modules == module_catalog@,
                i <= cfgs.len(),
                size * size <= usize::MAX,
                cell_count == size * size,
                first_entry_error(lid, cfgs, i as int, size, modules) is None,
                fitted_modules == module_entries(cfgs.take(i as int)),
                fitted_modules <= i,
                module_count(ship.slots@) == fitted_modules as nat,
                forall|j: int| 0 <= j < i ==> in_grid(#[trigger] cfgs[j], size),
                forall|j: int| 0 <= j < i ==> 0 <= #[trigger] cell_index(cfgs[j], size) < cell_count,
                forall|j: int| 0 <= j < i ==> used@.contains(#[trigger] cell_index(cfgs[j], size) as usize),
                forall|q: usize| #[trigger] used@.contains(q) ==> exists|j: int|
                    0 <= j < i && #[trigger] cell_index(cfgs[j], size) == q,
                forall|j: int| 0 <= j < i && (#[trigger] cfgs[j]).module_id is Some ==> {
                    let named = cfgs[j].module_id->0;
                    modules.contains_key(named@) && modules[named@].id@ == named@
                },
                fitted_with(ship, cfgs, i as int, size, modules),
            decreases cfgs.len() - i,
        {
            let c = &loadout.slots[i];
            proof {
                assert(cfgs.take(i + 1).drop_last() == cfgs.take(i as int));
                assert(cfgs.take(i + 1).last() == cfgs[i as int]);
            }
            proof {
                if c.x < size && c.y < size {
                    lemma_cell_in_grid(c.x as int, c.y as int, size as int);
                }
            }
            let idx = match ship.index_of(c.x, c.y) {
                Some(idx) => idx,
                None => {
                    proof {
                        lemma_first_entry_error_stays(lid, cfgs, i + 1, cfgs.len() as int, size, modules);
                    }
                    return Err(cell_error_text(&loadout.id, "' has slot outside ship grid: (", c));
                },
            };
            let ghost used_before = used@;
            if !used.insert(idx) {
                proof {
                    let j = choose|j: int| 0 <= j < i && #[trigger] cell_index(cfgs[j], size) == idx;
                    lemma_cell_index_injective(cfgs[j], cfgs[i as int], size);
                    assert(cfgs[j].x == c.x && cfgs[j].y == c.y);
                    lemma_first_entry_error_stays(lid, cfgs, i + 1, cfgs.len() as int, size, modules);
                }
                return Err(cell_error_text(&loadout.id, "' has duplicate slot entry at (", c));
            }
            proof {
                assert forall|j: int| 0 <= j < i implies !(#[trigger] cfgs[j].x == c.x && cfgs[j].y == c.y) by {
                    lemma_cell_index_injective(cfgs[j], cfgs[i as int], size);
                    assert(used_before.contains(cell_index(cfgs[j], size) as usize));
                }
            }
            let slot = match &c.module_id {
                Some(module_id) => {
                    fitted_modules = fitted_modules + 1;
                    proof {
                        module_catalog.lemma_ids_match();
                    }
                    match module_catalog.spawn_instance(module_id.as_str()) {
                        Ok(module) => Slot::with_module(c.armor_layers, module),
                        Err(e) => {
                            proof {
                                lemma_first_entry_error_stays(lid, cfgs, i + 1, cfgs.len() as int, size, modules);
                            }
                            return Err(e);
                        },
                    }
                },
                None => Slot::empty(c.armor_layers),
            };
            assert(slot == configured_slot(cfgs[i as int], modules));
            assert(idx == cell_index(cfgs[i as int], size));
            let ghost before = ship;
            match ship.set_slot(c.x, c.y, slot) {
                Ok(()) => {},
                Err(e) => {
                    return Err(e);
                },
            }
            assert(ship.slots@ == before.slots@.update(idx as int, slot));
            proof {
                assert(before.slots@[idx as int] == empty_slot_spec(0));
                lemma_module_count_update(before.slots@, idx as int, slot);
            }
            proof {
                assert forall|j: int| 0 <= j < i + 1 implies ship.slots@[#[trigger] cell_index(cfgs[j], size)]
                    == configured_slot(cfgs[j], modules) by {
                    if j < i {
                        assert(used_before.contains(cell_index(cfgs[j], size) as usize));
                        assert(cell_index(cfgs[j], size) != idx);
                    }
                }
                assert forall|q: usize| #[trigger] used@.contains(q) implies exists|j: int|
                    0 <= j < i + 1 && #[trigger] cell_index(cfgs[j], size) == q by {
                    if q == idx {
                        assert(cell_index(cfgs[i as int], size) == q);
                    }
                }
            }
            i = i + 1;
        }
        proof {
            assert(cfgs.take(cfgs.len() as int) == cfgs);
            assert forall|j: int| 0 <= j < cfgs.len() && #[trigger] cfgs[j].module_id is Some implies {
                let named = cfgs[j].module_id->0;
                &&& ship.slots@[cell_index(cfgs[j], size)].module matches Some(m)
                &&& m.archetype_id@ == named@
                &&& m.hp == modules[named@].max_hp
            } by {
                assert(ship.slots@[cell_index(cfgs[j], size)] == configured_slot(cfgs[j], modules));
            }
        }
        if fitted_modules > ship_def.max_modules {
            return Err(too_many_modules_text(&loadout.id, fitted_modules, ship_def));
        }
        Ok(ship)
    }
}

} // verus!
