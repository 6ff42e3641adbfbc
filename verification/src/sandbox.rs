//! Decisions of the sandbox screen that do not depend on drawing: which
//! slots of a ship fire, and which slot of the other ship a shot aims at.
use rand::rngs::ThreadRng;
use rand::RngExt;
use vstd::prelude::*;

use crate::data::module_catalog::ModuleCatalog;
use crate::domain::module::ModuleKind;
use crate::domain::ship::{hit_slot_spec, Ship, Slot};

verus! {

/// A slot fires when it holds a module that is not destroyed and whose
/// archetype the catalog knows as a gun.
pub open spec fn fires(slot: Slot, catalog: Option<&ModuleCatalog>) -> bool {
    match (slot.module, catalog) {
        (Some(m), Some(c)) => m.hp != 0 && c@.contains_key(m.archetype_id@) && c@[m.archetype_id@].kind
            == ModuleKind::Gun,
        _ => false,
    }
}

/// Indices, in increasing order, of the first `n` slots that fire.
pub open spec fn firing_slots(slots: Seq<Slot>, n: int, catalog: Option<&ModuleCatalog>) -> Seq<usize>
    decreases n,
{
    if n <= 0 {
        Seq::empty()
    } else {
        let before = firing_slots(slots, n - 1, catalog);
        if fires(slots[n - 1], catalog) { before.push((n - 1) as usize) } else { before }
    }
}

/// The firing slots are exactly the slots holding a module with hit points
/// left whose archetype the catalog knows as a gun, listed once each in
/// increasing order; without a catalog nothing fires.
pub proof fn lemma_firing_slots_exact(slots: Seq<Slot>, n: int, catalog: Option<&ModuleCatalog>)
    requires
        0 <= n <= slots.len(),
        slots.len() <= usize::MAX,
    ensures
        ({
            let r = firing_slots(slots, n, catalog);
            &&& forall|k: int| 0 <= k < r.len() ==> {
                &&& 0 <= #[trigger] r[k] < n
                &&& (slots[r[k] as int].module is Some && slots[r[k] as int].module->0.hp != 0 && catalog is Some
                && catalog->0@.contains_key(slots[r[k] as int].module->0.archetype_id@)
                && catalog->0@[slots[r[k] as int].module->0.archetype_id@].kind == ModuleKind::Gun)
            }
            &&& forall|i: int| #![trigger slots[i]] 0 <= i < n && (slots[i].module is Some && slots[i].module->0.hp != 0 && catalog is Some
                && catalog->0@.contains_key(slots[i].module->0.archetype_id@)
                && catalog->0@[slots[i].module->0.archetype_id@].kind == ModuleKind::Gun) ==> r.contains(i as usize)
            &&& forall|a: int, b: int| 0 <= a < b < r.len() ==> #[trigger] r[a] < #[trigger] r[b]
            &&& catalog is None ==> r.len() == 0
        }),
    decreases n,
{
    if n > 0 {
        lemma_firing_slots_exact(slots, n - 1, catalog);
        let before = firing_slots(slots, n - 1, catalog);
        let r = firing_slots(slots, n, catalog);
        if fires(slots[n - 1], catalog) {
            assert(r == before.push((n - 1) as usize));
            assert(r[r.len() - 1] == (n - 1) as usize);
        }
        assert forall|i: int| #![trigger slots[i]] 0 <= i < n && (slots[i].module is Some && slots[i].module->0.hp != 0 && catalog is Some
                && catalog->0@.contains_key(slots[i].module->0.archetype_id@)
                && catalog->0@[slots[i].module->0.archetype_id@].kind == ModuleKind::Gun) implies r.contains(i as usize) by {
            if i < n - 1 {
                let k = choose|k: int| 0 <= k < before.len() && before[k] == i as usize;
                assert(r[k] == before[k]);
            } else {
                assert(r[r.len() - 1] == (n - 1) as usize);
            }
        }
    }
}

/// Indices, in increasing order, of the slots of `ship` that fire.
pub fn gun_slots(ship: &Ship, catalog: Option<&ModuleCatalog>) -> (r: Vec<usize>)
    ensures
        r@ == firing_slots(ship.slots@, ship.slots@.len() as int, catalog),
        forall|k: int| 0 <= k < r@.len() ==> {
            &&& #[trigger] r@[k] < ship.slots@.len()
            &&& (ship.slots@[r@[k] as int].module is Some && ship.slots@[r@[k] as int].module->0.hp != 0 && catalog is Some
                && catalog->0@.contains_key(ship.slots@[r@[k] as int].module->0.archetype_id@)
                && catalog->0@[ship.slots@[r@[k] as int].module->0.archetype_id@].kind == ModuleKind::Gun)
        },
        forall|i: int| #![trigger ship.slots@[i]] 0 <= i < ship.slots@.len() && (ship.slots@[i].module is Some && ship.slots@[i].module->0.hp != 0 && catalog is Some
                && catalog->0@.contains_key(ship.slots@[i].module->0.archetype_id@)
                && catalog->0@[ship.slots@[i].module->0.archetype_id@].kind == ModuleKind::Gun) ==> r@.contains(i as usize),
{
    let mut r: Vec<usize> = Vec::new();
    let mut i: usize = 0;
    while i < ship.slots.len()
        invariant
            i <= ship.slots@.len(),
            r@ == firing_slots(ship.slots@, i as int, catalog),
        decreases ship.slots@.len() - i,
    {
        let mut armed = false;
        match (&ship.slots[i].module, catalog) {
            (Some(module), Some(c)) => {
                if !module.is_destroyed() {
                    match c.get(module.archetype_id.as_str()) {
                        Some(archetype) => {
                            armed = archetype.kind == ModuleKind::Gun;
                        },
                        None => {},
                    }
                }
            },
            _ => {},
        }
        if armed {
            r.push(i);
        }
        i = i + 1;
    }
    proof {
        lemma_firing_slots_exact(ship.slots@, ship.slots@.len() as int, catalog);
    }
    r
}

/// The slots after the first `n` shots of a volley, in order: a shot that
/// hits a slot of the ship applies `damage` there; a miss, or a shot at an
/// index past the last slot, changes nothing.
pub open spec fn volley_slots(slots: Seq<Slot>, shots: Seq<(usize, bool)>, n: int, damage: u32) -> Seq<Slot>
    decreases n,
{
    if n <= 0 {
        slots
    } else {
        let before = volley_slots(slots, shots, n - 1, damage);
        let (target, hit) = shots[n - 1];
        if hit && target < before.len() {
            before.update(target as int, hit_slot_spec(before[target as int], damage))
        } else {
            before
        }
    }
}

/// The outcome of the first `n` shots depends only on those shots.
proof fn lemma_volley_prefix(slots: Seq<Slot>, a: Seq<(usize, bool)>, b: Seq<(usize, bool)>, n: int, damage: u32)
    requires
        0 <= n <= a.len(),
        n <= b.len(),
        forall|j: int| 0 <= j < n ==> a[j] == b[j],
    ensures
        volley_slots(slots, a, n, damage) == volley_slots(slots, b, n, damage),
    decreases n,
{
    if n > 0 {
        lemma_volley_prefix(slots, a, b, n - 1, damage);
    }
}

/// A volley keeps the number of slots; missed shots change nothing, so the
/// volley has the outcome of its hits alone, in order; and a slot that no
/// hitting shot aims at is left as it was.
pub proof fn lemma_volley_laws(slots: Seq<Slot>, shots: Seq<(usize, bool)>, n: int, damage: u32)
    requires
        0 <= n <= shots.len(),
    ensures
        ({
            let after = volley_slots(slots, shots, n, damage);
            let hits = shots.take(n).filter(|s: (usize, bool)| s.1);
            &&& after.len() == slots.len()
            &&& after == volley_slots(slots, hits, hits.len() as int, damage)
            &&& (forall|j: int| 0 <= j < n ==> !(#[trigger] shots[j]).1) ==> after == slots
            &&& forall|i: int| 0 <= i < slots.len() && (forall|j: int| 0 <= j < n ==> !((#[trigger] shots[j]).1
                && shots[j].0 == i)) ==> after[i] == slots[i]
        }),
    decreases n,
{
    reveal(Seq::filter);
    if n > 0 {
        lemma_volley_laws(slots, shots, n - 1, damage);
        let prev_hits = shots.take(n - 1).filter(|s: (usize, bool)| s.1);
        let hits = shots.take(n).filter(|s: (usize, bool)| s.1);
        assert(shots.take(n).drop_last() == shots.take(n - 1));
        assert(shots.take(n).last() == shots[n - 1]);
        if shots[n - 1].1 {
            assert(hits == prev_hits.push(shots[n - 1]));
            lemma_volley_prefix(slots, hits, prev_hits, prev_hits.len() as int, damage);
        } else {
            assert(hits == prev_hits);
        }
        if forall|j: int| 0 <= j < n ==> !(#[trigger] shots[j]).1 {
            assert(!shots[n - 1].1);
            assert(forall|j: int| 0 <= j < n - 1 ==> !(#[trigger] shots[j]).1);
        }
        assert forall|i: int| 0 <= i < slots.len() && (forall|j: int| 0 <= j < n ==> !((#[trigger] shots[j]).1
            && shots[j].0 == i)) implies volley_slots(slots, shots, n, damage)[i] == slots[i] by {
            assert(!(shots[n - 1].1 && shots[n - 1].0 == i));
            assert(forall|j: int| 0 <= j < n - 1 ==> !((#[trigger] shots[j]).1 && shots[j].0 == i));
        }
    }
}

/// Applies a volley to `target`: each shot, in order, that hits applies
/// `damage` to the slot it aims at.
pub fn resolve_volley(target: &mut Ship, shots: &Vec<(usize, bool)>, damage: u32)
    ensures
        final(target).size == old(target).size,
        final(target).slots@ == volley_slots(old(target).slots@, shots@, shots@.len() as int, damage),
        final(target).slots@.len() == old(target).slots@.len(),
        (forall|j: int| 0 <= j < shots@.len() ==> !(#[trigger] shots@[j]).1) ==> final(target).slots@ == old(
            target,
        ).slots@,
        forall|i: int| 0 <= i < old(target).slots@.len() && (forall|j: int| 0 <= j < shots@.len() ==> !(
            (#[trigger] shots@[j]).1 && shots@[j].0 == i)) ==> final(target).slots@[i] == old(target).slots@[i],
{
    let ghost start = target.slots@;
    let mut i: usize = 0;
    while i < shots.len()
        invariant
            i <= shots@.len(),
            target.size == old(target).size,
            start == old(target).slots@,
            target.slots@ == volley_slots(start, shots@, i as int, damage),
        decreases shots@.len() - i,
    {
        let (slot_index, hit) = shots[i];
        if hit {
            let _ = target.apply_hit(slot_index, damage);
        }
        i = i + 1;
    }
    proof {
        lemma_volley_laws(start, shots@, shots@.len() as int, damage);
    }
}

/// The thread-local random generator of `rand`.
#[verifier::external_type_specification]
#[verifier::external_body]
pub struct ExThreadRng(ThreadRng);

/// Calls `rand::RngExt::random_range` with `0..count` on `rng`. The contract
/// claims only that the index lies below `count`; which index comes out is
/// left to chance and not stated. `random_range` panics on an empty range,
/// which `requires` rules out.
#[verifier::external_body]
fn draw_index(rng: &mut ThreadRng, count: usize) -> (r: usize)
    requires
        count > 0,
    ensures
        r < count,
{
    rng.random_range(0..count)
}

/// The slot of `target` that a shot aims at, drawn at random among all its
/// slots; `None` when the target has no slot to aim at.
pub fn choose_target(rng: &mut ThreadRng, target: &Ship) -> (r: Option<usize>)
    ensures
        r is None <==> target.slots@.len() == 0,
        r matches Some(i) ==> i < target.slots@.len(),
{
    let count = target.slots.len();
    if count == 0 {
        None
    } else {
        Some(draw_index(rng, count))
    }
}

} // verus!
