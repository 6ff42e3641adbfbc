use vstd::prelude::*;

use crate::domain::module::ModuleInstance;
use crate::text::{decimal, decimal_string};

verus! {

/// Highest number of armor layers a slot can carry.
pub const MAX_ARMOR_LAYERS: u8 = 3;

/// Armor hit points granted by each layer.
pub const ARMOR_HP_PER_LAYER: u32 = 25;

/// One cell of a ship's grid: its armor and the module it holds, if any.
#[derive(Debug, Clone)]
pub struct Slot {
    pub armor_layers: u8,
    pub armor_hp: u32,
    pub module: Option<ModuleInstance>,
}

/// Armor layers after clamping to `MAX_ARMOR_LAYERS`.
pub open spec fn clamp_layers(layers: u8) -> u8 {
    if layers <= MAX_ARMOR_LAYERS { layers } else { MAX_ARMOR_LAYERS }
}

/// The slot that `Slot::empty(layers)` builds.
pub open spec fn empty_slot_spec(layers: u8) -> Slot {
    Slot {
        armor_layers: clamp_layers(layers),
        armor_hp: (clamp_layers(layers) * ARMOR_HP_PER_LAYER) as u32,
        module: None,
    }
}

impl Slot {
    /// An empty slot with the given armor, clamped to `MAX_ARMOR_LAYERS`.
    pub fn empty(armor_layers: u8) -> (s: Self)
        ensures
            s == empty_slot_spec(armor_layers),
            s.armor_layers == (if armor_layers <= 3 { armor_layers } else { 3 }),
            s.armor_hp == 25 * s.armor_layers,
            s.module is None,
    {
        let layers: u8 = if armor_layers <= MAX_ARMOR_LAYERS { armor_layers } else { MAX_ARMOR_LAYERS };
        Slot { armor_layers: layers, armor_hp: (layers as u32) * ARMOR_HP_PER_LAYER, module: None }
    }

    /// A slot with the given armor, clamped, that holds `module`.
    pub fn with_module(armor_layers: u8, module: ModuleInstance) -> (s: Self)
        ensures
            s == (Slot { module: Some(module), ..empty_slot_spec(armor_layers) }),
    {
        let mut slot = Self::empty(armor_layers);
        slot.module = Some(module);
        slot
    }
}

/// What one hit did to one slot.
#[derive(Debug, Clone, Copy, PartialEq, Eq, Structural)]
pub struct HitReport {
    pub slot_index: usize,
    pub target_had_module: bool,
    pub armor_damage: u32,
    pub module_damage: u32,
    pub module_destroyed: bool,
}

/// A square ship: `size * size` slots, row by row.
#[derive(Debug, Clone)]
pub struct Ship {
    pub size: usize,
    pub slots: Vec<Slot>,
}

/// The smaller of two integers.
pub open spec fn min_int(a: int, b: int) -> int {
    if a <= b { a } else { b }
}

/// Damage the armor of `slot` takes from a hit of `damage`: none on a slot
/// without a module, else as much as the armor has left.
pub open spec fn armor_damage_spec(slot: Slot, damage: u32) -> u32 {
    if slot.module is Some { min_int(slot.armor_hp as int, damage as int) as u32 } else { 0 }
}

/// Damage that passes through the armor.
pub open spec fn leftover_damage_spec(slot: Slot, damage: u32) -> u32 {
    (damage - armor_damage_spec(slot, damage)) as u32
}

/// Damage the module of `slot` takes: what the armor let through, as much as
/// the module has left.
pub open spec fn module_damage_spec(slot: Slot, damage: u32) -> u32 {
    match slot.module {
        Some(m) => if leftover_damage_spec(slot, damage) > 0 {
            min_int(m.hp as int, leftover_damage_spec(slot, damage) as int) as u32
        } else {
            0
        },
        None => 0,
    }
}

/// Whether the hit leaves the module at zero hit points while damage reached it.
pub open spec fn module_destroyed_spec(slot: Slot, damage: u32) -> bool {
    match slot.module {
        Some(m) => leftover_damage_spec(slot, damage) > 0 && m.hp == module_damage_spec(slot, damage),
        None => false,
    }
}

/// The slot after a hit of `damage`. A slot without a module is not touched.
pub open spec fn hit_slot_spec(slot: Slot, damage: u32) -> Slot {
    match slot.module {
        Some(m) => Slot {
            armor_layers: slot.armor_layers,
            armor_hp: (slot.armor_hp - armor_damage_spec(slot, damage)) as u32,
            module: Some(ModuleInstance {
                archetype_id: m.archetype_id,
                hp: (m.hp - module_damage_spec(slot, damage)) as u32,
            }),
        },
        None => slot,
    }
}

/// The report of a hit of `damage` on `slot`, found at `index`.
pub open spec fn hit_report_spec(index: usize, slot: Slot, damage: u32) -> HitReport {
    HitReport {
        slot_index: index,
        target_had_module: slot.module is Some,
        armor_damage: armor_damage_spec(slot, damage),
        module_damage: module_damage_spec(slot, damage),
        module_destroyed: module_destroyed_spec(slot, damage),
    }
}

/// Whether a slot holds a module.
pub open spec fn holds_module(slot: Slot) -> bool {
    slot.module is Some
}

/// Whether a slot holds a module with no hit points left.
pub open spec fn holds_destroyed_module(slot: Slot) -> bool {
    slot.module matches Some(m) && m.hp == 0
}

/// Number of slots that hold a module.
pub open spec fn module_count(slots: Seq<Slot>) -> nat
    decreases slots.len(),
{
    if slots.len() == 0 {
        0
    } else {
        module_count(slots.drop_last()) + if holds_module(slots.last()) { 1nat } else { 0nat }
    }
}

/// Number of slots that hold a destroyed module.
pub open spec fn destroyed_count(slots: Seq<Slot>) -> nat
    decreases slots.len(),
{
    if slots.len() == 0 {
        0
    } else {
        destroyed_count(slots.drop_last()) + if holds_destroyed_module(slots.last()) { 1nat } else { 0nat }
    }
}

/// A ship explodes once it has modules and at least three quarters of them
/// are destroyed.
pub open spec fn exploded_spec(slots: Seq<Slot>) -> bool {
    module_count(slots) > 0 && destroyed_count(slots) * 4 >= module_count(slots) * 3
}

impl Ship {
    /// The grid holds exactly `size * size` slots.
    pub open spec fn wf(self) -> bool {
        self.slots@.len() == self.size * self.size
    }

    /// Whether cell `(x, y)` lies in the grid and its slot exists.
    pub open spec fn holds_cell(self, x: usize, y: usize) -> bool {
        x < self.size && y < self.size && y * self.size + x < self.slots@.len()
    }

    /// A ship of `size * size` empty, unarmored slots.
    pub fn new(size: usize) -> (ship: Self)
        requires
            size * size <= usize::MAX,
        ensures
            ship.size == size,
            ship.wf(),
            forall|i: int| 0 <= i < ship.slots@.len() ==> ship.slots@[i] == empty_slot_spec(0),
    {
        let slot_count: usize = size * size;
        let mut slots: Vec<Slot> = Vec::with_capacity(slot_count);
        let mut i: usize = 0;
        while i < slot_count
            invariant
                i <= slot_count,
                slots@.len() == i,
                forall|k: int| 0 <= k < i ==> slots@[k] == empty_slot_spec(0),
            decreases slot_count - i,
        {
            slots.push(Slot::empty(0));
            i = i + 1;
        }
        Ship { size, slots }
    }

    /// Index of cell `(x, y)`, or `None` when it lies outside the grid.
    pub fn index_of(&self, x: usize, y: usize) -> (r: Option<usize>)
        requires
            x < self.size && y < self.size ==> y * self.size + x <= usize::MAX,
        ensures
            r is Some <==> (x < self.size && y < self.size),
            r matches Some(i) ==> i == y * self.size + x && i < self.size * self.size,
    {
        if x < self.size && y < self.size {
            proof {
                lemma_cell_in_grid(x as int, y as int, self.size as int);
            }
            Some((y * self.size) + x)
        } else {
            None
        }
    }
}

impl Ship {
    /// Fires a hit of `damage` at slot `slot_index`.
    ///
    /// Armor takes the damage first; what it cannot absorb reaches the
    /// module. A slot without a module is not changed. Returns `None` when
    /// the index lies past the last slot.
    pub fn apply_hit(&mut self, slot_index: usize, damage: u32) -> (r: Option<HitReport>)
        ensures
            final(self).size == old(self).size,
            match r {
                None => slot_index >= old(self).slots@.len() && final(self).slots@ == old(self).slots@,
                Some(report) => {
                    &&& slot_index < old(self).slots@.len()
                    &&& report == hit_report_spec(slot_index, old(self).slots@[slot_index as int], damage)
                    &&& final(self).slots@ == old(self).slots@.update(
                        slot_index as int,
                        hit_slot_spec(old(self).slots@[slot_index as int], damage),
                    )
                    &&& report.slot_index == slot_index
                    &&& report.target_had_module == (old(self).slots@[slot_index as int].module is Some)
                    &&& report.armor_damage + report.module_damage <= damage
                    &&& report.target_had_module ==> final(self).slots@[slot_index as int].armor_hp
                        + report.armor_damage == old(self).slots@[slot_index as int].armor_hp
                    &&& report.module_destroyed <==> (report.target_had_module && damage > report.armor_damage
                        && (final(self).slots@[slot_index as int].module matches Some(m) && m.hp == 0))
                    &&& !report.target_had_module ==> (report.armor_damage == 0 && report.module_damage == 0
                        && final(self).slots@ == old(self).slots@)
                    &&& report.target_had_module ==> report.armor_damage == (if old(self).slots@[slot_index as int].armor_hp
                        <= damage { old(self).slots@[slot_index as int].armor_hp } else { damage })
                    &&& report.target_had_module ==> ({
                        let m = old(self).slots@[slot_index as int].module->0;
                        let rest = damage - report.armor_damage;
                        &&& report.module_damage == (if m.hp <= rest { m.hp as int } else { rest })
                        &&& final(self).slots@[slot_index as int].module matches Some(n)
                        &&& n.archetype_id == m.archetype_id
                        &&& n.hp + report.module_damage == m.hp
                        &&& final(self).slots@[slot_index as int].armor_layers
                            == old(self).slots@[slot_index as int].armor_layers
                    })
                },
            },
    {
        if slot_index >= self.slots.len() {
            return None;
        }
        let ghost before = self.slots@[slot_index as int];
        let slot = &mut self.slots[slot_index];
        let target_had_module = slot.module.is_some();
        if !target_had_module {
            return Some(HitReport {
                slot_index,
                target_had_module,
                armor_damage: 0,
                module_damage: 0,
                module_destroyed: false,
            });
        }

        let armor_damage: u32 = if slot.armor_hp <= damage { slot.armor_hp } else { damage };
        slot.armor_hp = slot.armor_hp - armor_damage;
        let remaining: u32 = damage - armor_damage;

        let mut module_damage: u32 = 0;
        let mut module_destroyed = false;

        if remaining > 0 {
            match &mut slot.module {
                Some(module) => {
                    module_damage = if module.hp <= remaining { module.hp } else { remaining };
                    module.hp = module.hp - module_damage;
                    if module.hp == 0 {
                        module_destroyed = true;
                    }
                },
                None => {},
            }
        }

        Some(HitReport {
            slot_index,
            target_had_module,
            armor_damage,
            module_damage,
            module_destroyed,
        })
    }
}

/// Message of `set_slot` for a cell outside the grid.
pub open spec fn out_of_bounds_message(x: usize, y: usize) -> Seq<char> {
    "slot coordinates out of bounds: ("@ + decimal(x as nat) + ", "@ + decimal(y as nat) + ")"@
}

/// Renders `(x, y)` as in `out_of_bounds_message`.
fn out_of_bounds_text(x: usize, y: usize) -> (s: String)
    ensures
        s@ == out_of_bounds_message(x, y),
{
    let mut s = String::from_str("slot coordinates out of bounds: (");
    s.append(decimal_string(x as u128).as_str());
    s.append(", ");
    s.append(decimal_string(y as u128).as_str());
    s.append(")");
    s
}

impl Ship {
    /// The slot at cell `(x, y)`, if the cell lies in the grid and the slot exists.
    pub fn slot(&self, x: usize, y: usize) -> (r: Option<&Slot>)
        requires
            x < self.size && y < self.size ==> y * self.size + x <= usize::MAX,
        ensures
            r is Some <==> self.holds_cell(x, y),
            r matches Some(s) ==> *s == self.slots@[y * self.size + x],
    {
        match self.index_of(x, y) {
            Some(idx) => if idx < self.slots.len() { Some(&self.slots[idx]) } else { None },
            None => None,
        }
    }

    /// Mutable access to the slot at cell `(x, y)`, if the cell lies in the
    /// grid and the slot exists.
    pub fn slot_mut(&mut self, x: usize, y: usize) -> (r: Option<&mut Slot>)
        requires
            x < old(self).size && y < old(self).size ==> y * old(self).size + x <= usize::MAX,
        ensures
            final(self).size == old(self).size,
            r is Some <==> old(self).holds_cell(x, y),
            r matches Some(s) ==> {
                &&& *s == old(self).slots@[y * old(self).size + x]
                &&& final(self).slots@ == old(self).slots@.update(y * old(self).size + x, *final(s))
            },
            r is None ==> final(self).slots@ == old(self).slots@,
    {
        match self.index_of(x, y) {
            Some(idx) => if idx < self.slots.len() { Some(&mut self.slots[idx]) } else { None },
            None => None,
        }
    }

    /// Replaces the slot at cell `(x, y)`; fails when the cell lies outside
    /// the grid.
    pub fn set_slot(&mut self, x: usize, y: usize, slot: Slot) -> (r: Result<(), String>)
        requires
            x < old(self).size && y < old(self).size ==> y * old(self).size + x < old(self).slots@.len(),
        ensures
            final(self).size == old(self).size,
            x < old(self).size && y < old(self).size ==> r is Ok && final(self).slots@
                == old(self).slots@.update(y * old(self).size + x, slot),
            !(x < old(self).size && y < old(self).size) ==> (r matches Err(e) && e@
                == out_of_bounds_message(x, y)) && final(self).slots@ == old(self).slots@,
    {
        proof {
            assert(self.slots@.len() == self.slots.len());
        }
        match self.index_of(x, y) {
            Some(idx) => {
                self.slots.set(idx, slot);
                Ok(())
            },
            None => Err(out_of_bounds_text(x, y)),
        }
    }
}

impl Ship {
    /// Number of slots that hold a module.
    pub fn total_modules(&self) -> (n: usize)
        ensures
            n == module_count(self.slots@),
            n == self.slots@.filter(|s: Slot| s.module is Some).len(),
    {
        let mut n: usize = 0;
        let mut i: usize = 0;
        while i < self.slots.len()
            invariant
                i <= self.slots@.len(),
                n == module_count(self.slots@.subrange(0, i as int)),
                n <= i,
            decreases self.slots@.len() - i,
        {
            proof {
                assert(self.slots@.subrange(0, i + 1).drop_last() == self.slots@.subrange(0, i as int));
            }
            if self.slots[i].module.is_some() {
                n = n + 1;
            }
            i = i + 1;
        }
        proof {
            assert(self.slots@.subrange(0, i as int) == self.slots@);
            lemma_counts_are_filters(self.slots@);
        }
        n
    }

    /// Number of slots that hold a destroyed module.
    pub fn destroyed_modules(&self) -> (n: usize)
        ensures
            n == destroyed_count(self.slots@),
            n == self.slots@.filter(|s: Slot| s.module matches Some(m) && m.hp == 0).len(),
    {
        let mut n: usize = 0;
        let mut i: usize = 0;
        while i < self.slots.len()
            invariant
                i <= self.slots@.len(),
                n == destroyed_count(self.slots@.subrange(0, i as int)),
                n <= i,
            decreases self.slots@.len() - i,
        {
            proof {
                assert(self.slots@.subrange(0, i + 1).drop_last() == self.slots@.subrange(0, i as int));
            }
            match &self.slots[i].module {
                Some(module) => if module.is_destroyed() {
                    n = n + 1;
                },
                None => {},
            }
            i = i + 1;
        }
        proof {
            assert(self.slots@.subrange(0, i as int) == self.slots@);
            lemma_counts_are_filters(self.slots@);
        }
        n
    }

    /// Whether the ship has modules and at least three quarters of them are
    /// destroyed.
    pub fn is_exploded(&self) -> (r: bool)
        ensures
            r == exploded_spec(self.slots@),
            r <==> (module_count(self.slots@) > 0 && 4 * destroyed_count(self.slots@) >= 3 * module_count(
                self.slots@,
            )),
    {
        let total = self.total_modules();
        if total == 0 {
            return false;
        }
        let destroyed = self.destroyed_modules();
        (destroyed as u128) * 4 >= (total as u128) * 3
    }

    /// Cell `(x, y)` of the slot at `slot_index`: the inverse of `index_of`.
    pub fn cell_of(&self, slot_index: usize) -> (r: (usize, usize))
        requires
            self.size > 0,
        ensures
            r.0 == slot_index % self.size,
            r.1 == slot_index / self.size,
            r.0 < self.size,
            slot_index == r.1 * self.size + r.0,
    {
        let x = slot_index % self.size;
        let y = slot_index / self.size;
        proof {
            vstd::arithmetic::div_mod::lemma_fundamental_div_mod(slot_index as int, self.size as int);
            vstd::arithmetic::mul::lemma_mul_is_commutative(y as int, self.size as int);
        }
        (x, y)
    }
}

/// A cell inside a grid of side `n` has an index below `n * n`.
pub proof fn lemma_cell_in_grid(x: int, y: int, n: int)
    requires
        0 <= x < n,
        0 <= y < n,
    ensures
        0 <= y * n + x < n * n,
{
    assert(y * n <= (n - 1) * n) by (nonlinear_arith)
        requires
            0 <= y < n,
    ;
    assert((n - 1) * n == n * n - n) by (nonlinear_arith);
    assert(0 <= y * n) by (nonlinear_arith)
        requires
            0 <= y,
            0 <= n,
    ;
}

} // verus!

verus! {

/// Replacing one slot changes the module count by what the slot itself
/// contributes before and after.
pub proof fn lemma_module_count_update(slots: Seq<Slot>, i: int, v: Slot)
    requires
        0 <= i < slots.len(),
    ensures
        module_count(slots.update(i, v)) + (if holds_module(slots[i]) { 1int } else { 0int })
            == module_count(slots) + (if holds_module(v) { 1int } else { 0int }),
    decreases slots.len(),
{
    let u = slots.update(i, v);
    if i == slots.len() - 1 {
        assert(u.drop_last() == slots.drop_last());
    } else {
        lemma_module_count_update(slots.drop_last(), i, v);
        assert(u.drop_last() == slots.drop_last().update(i, v));
    }
}

/// Replacing one slot changes the destroyed count by what the slot itself
/// contributes before and after.
proof fn lemma_destroyed_count_update(slots: Seq<Slot>, i: int, v: Slot)
    requires
        0 <= i < slots.len(),
    ensures
        destroyed_count(slots.update(i, v)) + (if holds_destroyed_module(slots[i]) { 1int } else { 0int })
            == destroyed_count(slots) + (if holds_destroyed_module(v) { 1int } else { 0int }),
    decreases slots.len(),
{
    let u = slots.update(i, v);
    if i == slots.len() - 1 {
        assert(u.drop_last() == slots.drop_last());
    } else {
        lemma_destroyed_count_update(slots.drop_last(), i, v);
        assert(u.drop_last() == slots.drop_last().update(i, v));
    }
}

/// No more modules are destroyed than there are modules.
pub proof fn lemma_destroyed_within_total(slots: Seq<Slot>)
    ensures
        destroyed_count(slots) <= module_count(slots),
    decreases slots.len(),
{
    if slots.len() > 0 {
        lemma_destroyed_within_total(slots.drop_last());
    }
}

/// A hit splits its damage between armor and module, armor first: the two
/// parts never exceed the hit, damage reaches the module only once the
/// armor is gone, each part is exactly what the slot loses, and a module
/// reported destroyed is left with no hit points.
pub proof fn lemma_hit_accounting(slot: Slot, damage: u32)
    ensures
        armor_damage_spec(slot, damage) + module_damage_spec(slot, damage) <= damage,
        module_damage_spec(slot, damage) > 0 ==> armor_damage_spec(slot, damage) == slot.armor_hp,
        hit_slot_spec(slot, damage).armor_hp + armor_damage_spec(slot, damage) == slot.armor_hp,
        hit_slot_spec(slot, damage).armor_layers == slot.armor_layers,
        slot.module matches Some(m) ==> (hit_slot_spec(slot, damage).module matches Some(n)
            && n.archetype_id == m.archetype_id
            && n.hp + module_damage_spec(slot, damage) == m.hp),
        module_destroyed_spec(slot, damage) ==> holds_destroyed_module(hit_slot_spec(slot, damage)),
        slot.module is None ==> hit_slot_spec(slot, damage) == slot,
{
}

/// A hit never adds or removes a module, never repairs a destroyed module,
/// and never brings an exploded ship back: the number of modules stays, the
/// number of destroyed modules does not fall, and an exploded ship stays
/// exploded.
pub proof fn lemma_hit_is_monotone(slots: Seq<Slot>, slot_index: int, damage: u32)
    requires
        0 <= slot_index < slots.len(),
    ensures
        ({
            let after = slots.update(slot_index, hit_slot_spec(slots[slot_index], damage));
            &&& module_count(after) == module_count(slots)
            &&& destroyed_count(after) >= destroyed_count(slots)
            &&& exploded_spec(slots) ==> exploded_spec(after)
        }),
{
    let v = hit_slot_spec(slots[slot_index], damage);
    lemma_module_count_update(slots, slot_index, v);
    lemma_destroyed_count_update(slots, slot_index, v);
    let after = slots.update(slot_index, v);
    if exploded_spec(slots) {
        assert(destroyed_count(after) * 4 >= destroyed_count(slots) * 4) by (nonlinear_arith)
            requires
                destroyed_count(after) >= destroyed_count(slots),
        ;
    }
}

/// A hit on a slot that holds a module: the armor takes all of the damage
/// or all it has left, whichever is less; the module takes as much of the
/// rest as it has left; the slot loses exactly what the report says; and
/// the module is reported destroyed exactly when damage got past the armor
/// and the module is left with no hit points.
pub proof fn lemma_hit_on_module(index: usize, slot: Slot, damage: u32)
    requires
        slot.module is Some,
    ensures
        ({
            let m = slot.module->0;
            let r = hit_report_spec(index, slot, damage);
            let after = hit_slot_spec(slot, damage);
            let rest = damage - r.armor_damage;
            &&& r.slot_index == index
            &&& r.target_had_module
            &&& r.armor_damage == (if slot.armor_hp <= damage { slot.armor_hp } else { damage })
            &&& r.module_damage == (if m.hp <= rest { m.hp as int } else { rest })
            &&& after.armor_layers == slot.armor_layers
            &&& after.armor_hp == slot.armor_hp - r.armor_damage
            &&& after.module matches Some(n) && n.archetype_id == m.archetype_id && n.hp == m.hp - r.module_damage
            &&& r.module_destroyed <==> (rest > 0 && (after.module->0).hp == 0)
        }),
{
}

/// A hit on a slot without a module changes nothing and reports no damage.
pub proof fn lemma_hit_on_empty_slot(index: usize, slot: Slot, damage: u32)
    requires
        slot.module is None,
    ensures
        hit_slot_spec(slot, damage) == slot,
        hit_report_spec(index, slot, damage) == (HitReport {
            slot_index: index,
            target_had_module: false,
            armor_damage: 0,
            module_damage: 0,
            module_destroyed: false,
        }),
{
}

/// The module count is the number of slots holding a module, and the
/// destroyed count the number holding a module at zero hit points.
pub proof fn lemma_counts_are_filters(slots: Seq<Slot>)
    ensures
        module_count(slots) == slots.filter(|s: Slot| s.module is Some).len(),
        destroyed_count(slots) == slots.filter(|s: Slot| s.module matches Some(m) && m.hp == 0).len(),
    decreases slots.len(),
{
    reveal(Seq::filter);
    if slots.len() > 0 {
        lemma_counts_are_filters(slots.drop_last());
    }
}

/// A ship has exploded exactly when it holds modules and at least three
/// quarters of them are destroyed; a ship with no destroyed module has not
/// exploded, and one whose every module is destroyed has, if it has any.
pub proof fn lemma_exploded_exactly(slots: Seq<Slot>)
    ensures
        ({
            let total = slots.filter(|s: Slot| s.module is Some).len();
            let destroyed = slots.filter(|s: Slot| s.module matches Some(m) && m.hp == 0).len();
            &&& exploded_spec(slots) <==> (total > 0 && 4 * destroyed >= 3 * total)
            &&& destroyed == 0 ==> !exploded_spec(slots)
            &&& (total > 0 && destroyed == total) ==> exploded_spec(slots)
        }),
{
    lemma_counts_are_filters(slots);
}

/// The cell of the slot at `index_of(x, y)` is `(x, y)` again.
pub proof fn lemma_cell_index_roundtrip(x: int, y: int, size: int)
    requires
        0 <= x < size,
        0 <= y < size,
    ensures
        (y * size + x) % size == x,
        (y * size + x) / size == y,
{
    vstd::arithmetic::div_mod::lemma_fundamental_div_mod_converse(y * size + x, size, y, x);
}

/// A new ship holds no module, so it has not exploded.
pub proof fn lemma_new_ship_intact(slots: Seq<Slot>)
    requires
        forall|i: int| 0 <= i < slots.len() ==> slots[i] == empty_slot_spec(0),
    ensures
        module_count(slots) == 0,
        destroyed_count(slots) == 0,
        !exploded_spec(slots),
    decreases slots.len(),
{
    if slots.len() > 0 {
        lemma_new_ship_intact(slots.drop_last());
    }
}

} // verus!
