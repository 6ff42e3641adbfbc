use vstd::prelude::*;

use crate::data::index::Keyed;
use crate::domain::ship::MAX_ARMOR_LAYERS;
use crate::text::{decimal, decimal_string, is_blank, is_blank_spec, result_view};

verus! {

/// A hull type: its grid side and how many modules it carries at most.
#[derive(Debug, Clone)]
pub struct ShipDefinition {
    pub id: String,
    pub display_name: String,
    pub grid_size: usize,
    pub max_modules: usize,
}

/// Number of cells of a hull with grid side `grid_size`.
pub open spec fn capacity_spec(grid_size: usize) -> nat {
    (grid_size * grid_size) as nat
}

impl ShipDefinition {
    /// `Ok` for a usable hull, else the reason it is not: a blank id, a zero
    /// grid side, or a module limit that is zero or above the cell count,
    /// checked in that order.
    pub open spec fn validate_spec(&self) -> Result<(), Seq<char>> {
        if is_blank_spec(self.id@) {
            Err("ship id cannot be empty"@)
        } else if self.grid_size == 0 {
            Err("ship '"@ + self.id@ + "' has invalid grid_size=0"@)
        } else if self.max_modules == 0 || self.max_modules > capacity_spec(self.grid_size) {
            Err("ship '"@ + self.id@ + "' has invalid max_modules="@ + decimal(self.max_modules as nat)
                + ", capacity="@ + decimal(capacity_spec(self.grid_size)))
        } else {
            Ok(())
        }
    }

    /// Checks the hull; see `validate_spec`.
    pub fn validate(&self) -> (r: Result<(), String>)
        ensures
            result_view(r) == self.validate_spec(),
            r is Ok <==> (!is_blank_spec(self.id@) && self.grid_size > 0 && self.max_modules > 0
                && self.max_modules <= self.grid_size * self.grid_size),
    {
        if is_blank(self.id.as_str()) {
            return Err(String::from_str("ship id cannot be empty"));
        }
        if self.grid_size == 0 {
            let mut msg = String::from_str("ship '");
            msg.append(self.id.as_str());
            msg.append("' has invalid grid_size=0");
            return Err(msg);
        }
        let g = self.grid_size as u128;
        proof {
            assert(g * g <= 0xffff_ffff_ffff_ffffu128 * 0xffff_ffff_ffff_ffffu128) by (nonlinear_arith)
                requires
                    g <= 0xffff_ffff_ffff_ffffu128,
            ;
        }
        let slot_capacity: u128 = g * g;
        if self.max_modules == 0 || (self.max_modules as u128) > slot_capacity {
            let mut msg = String::from_str("ship '");
            msg.append(self.id.as_str());
            msg.append("' has invalid max_modules=");
            msg.append(decimal_string(self.max_modules as u128).as_str());
            msg.append(", capacity=");
            msg.append(decimal_string(slot_capacity).as_str());
            return Err(msg);
        }
        Ok(())
    }
}

impl Keyed for ShipDefinition {
    open spec fn key_view(&self) -> Seq<char> {
        self.id@
    }

    open spec fn check_spec(&self) -> Result<(), Seq<char>> {
        self.validate_spec()
    }

    open spec fn duplicate_message(key: Seq<char>) -> Seq<char> {
        "duplicate ship id '"@ + key + "'"@
    }

    fn key(&self) -> (k: &String) {
        &self.id
    }

    fn check(&self) -> (r: Result<(), String>) {
        self.validate()
    }

    fn duplicate_text(key: &String) -> (s: String) {
        let mut s = String::from_str("duplicate ship id '");
        s.append(key.as_str());
        s.append("'");
        s
    }

    open spec fn copy_of(&self, other: &Self) -> bool {
        *self == *other
    }

    fn copy_record(&self) -> (r: Self) {
        ShipDefinition {
            id: self.id.clone(),
            display_name: self.display_name.clone(),
            grid_size: self.grid_size,
            max_modules: self.max_modules,
        }
    }
}

/// What a loadout puts in one cell: armor and, optionally, a module.
#[derive(Debug, Clone)]
pub struct SlotLoadout {
    pub x: usize,
    pub y: usize,
    pub armor_layers: u8,
    pub module_id: Option<String>,
}

impl SlotLoadout {
    /// `Ok` unless the armor exceeds `MAX_ARMOR_LAYERS`.
    pub open spec fn validate_spec(&self) -> Result<(), Seq<char>> {
        if self.armor_layers > MAX_ARMOR_LAYERS {
            Err("slot ("@ + decimal(self.x as nat) + ", "@ + decimal(self.y as nat)
                + ") has invalid armor_layers="@ + decimal(self.armor_layers as nat) + " (max="@
                + decimal(MAX_ARMOR_LAYERS as nat) + ")"@)
        } else {
            Ok(())
        }
    }

    /// Checks the slot entry; see `validate_spec`.
    pub fn validate(&self) -> (r: Result<(), String>)
        ensures
            result_view(r) == self.validate_spec(),
            r is Ok <==> self.armor_layers <= MAX_ARMOR_LAYERS,
    {
        if self.armor_layers > MAX_ARMOR_LAYERS {
            let mut msg = String::from_str("slot (");
            msg.append(decimal_string(self.x as u128).as_str());
            msg.append(", ");
            msg.append(decimal_string(self.y as u128).as_str());
            msg.append(") has invalid armor_layers=");
            msg.append(decimal_string(self.armor_layers as u128).as_str());
            msg.append(" (max=");
            msg.append(decimal_string(MAX_ARMOR_LAYERS as u128).as_str());
            msg.append(")");
            return Err(msg);
        }
        Ok(())
    }
}

/// The first failing slot entry's message, if any.
pub open spec fn first_slot_error(slots: Seq<SlotLoadout>) -> Option<Seq<char>>
    decreases slots.len(),
{
    if slots.len() == 0 {
        None
    } else {
        match first_slot_error(slots.drop_last()) {
            Some(e) => Some(e),
            None => match slots.last().validate_spec() {
                Err(e) => Some(e),
                Ok(_) => None,
            },
        }
    }
}

/// A named fitting of a hull: which cells get armor and modules.
#[derive(Debug, Clone)]
pub struct ShipLoadout {
    pub id: String,
    pub ship_id: String,
    pub slots: Vec<SlotLoadout>,
}

impl ShipLoadout {
    /// `Ok` for a usable loadout, else the reason it is not: a blank id, a
    /// blank hull id, or the first slot entry that fails, checked in that
    /// order.
    pub open spec fn validate_spec(&self) -> Result<(), Seq<char>> {
        if is_blank_spec(self.id@) {
            Err("loadout id cannot be empty"@)
        } else if is_blank_spec(self.ship_id@) {
            Err("loadout '"@ + self.id@ + "' has empty ship_id"@)
        } else {
            match first_slot_error(self.slots@) {
                Some(e) => Err(e),
                None => Ok(()),
            }
        }
    }

    /// Checks the loadout; see `validate_spec`.
    pub fn validate(&self) -> (r: Result<(), String>)
        ensures
            result_view(r) == self.validate_spec(),
            r is Ok <==> (!is_blank_spec(self.id@) && !is_blank_spec(self.ship_id@) && forall|i: int|
                0 <= i < self.slots@.len() ==> (#[trigger] self.slots@[i]).armor_layers <= MAX_ARMOR_LAYERS),
    {
        if is_blank(self.id.as_str()) {
            return Err(String::from_str("loadout id cannot be empty"));
        }
        if is_blank(self.ship_id.as_str()) {
            let mut msg = String::from_str("loadout '");
            msg.append(self.id.as_str());
            msg.append("' has empty ship_id");
            return Err(msg);
        }
        let mut i: usize = 0;
        while i < self.slots.len()
            invariant
                i <= self.slots@.len(),
                first_slot_error(self.slots@.take(i as int)) is None,
                !is_blank_spec(self.id@),
                !is_blank_spec(self.ship_id@),
            decreases self.slots@.len() - i,
        {
            proof {
                assert(self.slots@.take(i + 1).drop_last() == self.slots@.take(i as int));
                assert(self.slots@.take(i + 1).last() == self.slots@[i as int]);
            }
            match self.slots[i].validate() {
                Err(e) => {
                    proof {
                        lemma_first_slot_error_stays(self.slots@, i + 1);
                        lemma_slot_entries_valid(self.slots@);
                    }
                    return Err(e);
                },
                Ok(()) => {},
            }
            i = i + 1;
        }
        proof {
            assert(self.slots@.take(i as int) == self.slots@);
            lemma_slot_entries_valid(self.slots@);
        }
        Ok(())
    }
}

/// Slot entries pass exactly when none carries more than
/// `MAX_ARMOR_LAYERS` armor layers; otherwise the error is that of the first
/// entry that does, at its own position.
pub proof fn lemma_slot_entries_valid(slots: Seq<SlotLoadout>)
    ensures
        first_slot_error(slots) is None <==> forall|i: int|
            0 <= i < slots.len() ==> (#[trigger] slots[i]).armor_layers <= MAX_ARMOR_LAYERS,
        first_slot_error(slots) is Some ==> exists|i: int|
            0 <= i < slots.len() && (#[trigger] slots[i]).armor_layers > MAX_ARMOR_LAYERS
            && (forall|k: int| 0 <= k < i ==> (#[trigger] slots[k]).armor_layers <= MAX_ARMOR_LAYERS)
            && first_slot_error(slots) == Some("slot ("@ + decimal(slots[i].x as nat) + ", "@ + decimal(
                slots[i].y as nat,
            ) + ") has invalid armor_layers="@ + decimal(slots[i].armor_layers as nat) + " (max="@ + decimal(
                MAX_ARMOR_LAYERS as nat,
            ) + ")"@),
    decreases slots.len(),
{
    if slots.len() > 0 {
        let prefix = slots.drop_last();
        lemma_slot_entries_valid(prefix);
        let last = slots.len() - 1;
        assert(slots.last() == slots[last]);
        assert(forall|i: int| 0 <= i < prefix.len() ==> prefix[i] == slots[i]);
        if first_slot_error(prefix) is Some {
            let i = choose|i: int|
                0 <= i < prefix.len() && (#[trigger] prefix[i]).armor_layers > MAX_ARMOR_LAYERS
                && (forall|k: int| 0 <= k < i ==> (#[trigger] prefix[k]).armor_layers <= MAX_ARMOR_LAYERS)
                && first_slot_error(prefix) == Some("slot ("@ + decimal(prefix[i].x as nat) + ", "@ + decimal(
                    prefix[i].y as nat,
                ) + ") has invalid armor_layers="@ + decimal(prefix[i].armor_layers as nat) + " (max="@
                    + decimal(MAX_ARMOR_LAYERS as nat) + ")"@);
            assert(prefix[i] == slots[i]);
            assert forall|k: int| 0 <= k < i implies (#[trigger] slots[k]).armor_layers <= MAX_ARMOR_LAYERS by {
                assert(prefix[k] == slots[k]);
            }
        } else if slots[last].armor_layers > MAX_ARMOR_LAYERS {
            assert forall|k: int| 0 <= k < last implies (#[trigger] slots[k]).armor_layers <= MAX_ARMOR_LAYERS by {
                assert(prefix[k] == slots[k]);
            }
        } else {
            assert forall|k: int| 0 <= k < slots.len() implies (#[trigger] slots[k]).armor_layers
                <= MAX_ARMOR_LAYERS by {
                if k < last {
                    assert(prefix[k] == slots[k]);
                }
            }
        }
    }
}

/// A loadout is valid exactly when its id and hull id are not blank and no
/// slot entry carries more than `MAX_ARMOR_LAYERS` armor layers.
pub proof fn lemma_loadout_valid(l: ShipLoadout)
    ensures
        l.validate_spec() is Ok <==> (!is_blank_spec(l.id@) && !is_blank_spec(l.ship_id@) && forall|i: int|
            0 <= i < l.slots@.len() ==> (#[trigger] l.slots@[i]).armor_layers <= MAX_ARMOR_LAYERS),
{
    lemma_slot_entries_valid(l.slots@);
}

/// A hull is valid exactly when its id is not blank, its grid side is not
/// zero, and its module limit lies between one and its cell count.
pub proof fn lemma_ship_definition_valid(d: ShipDefinition)
    ensures
        d.validate_spec() is Ok <==> (!is_blank_spec(d.id@) && d.grid_size > 0 && d.max_modules > 0
            && d.max_modules <= d.grid_size * d.grid_size),
{
}

/// Once a slot entry fails, entries after it do not change the first error.
proof fn lemma_first_slot_error_stays(slots: Seq<SlotLoadout>, n: int)
    requires
        0 <= n <= slots.len(),
        first_slot_error(slots.take(n)) is Some,
    ensures
        first_slot_error(slots) == first_slot_error(slots.take(n)),
    decreases slots.len(),
{
    if n < slots.len() {
        assert(slots.drop_last().take(n) == slots.take(n));
        lemma_first_slot_error_stays(slots.drop_last(), n);
    } else {
        assert(slots.take(n) == slots);
    }
}

impl Keyed for ShipLoadout {
    open spec fn key_view(&self) -> Seq<char> {
        self.id@
    }

    open spec fn check_spec(&self) -> Result<(), Seq<char>> {
        self.validate_spec()
    }

    open spec fn duplicate_message(key: Seq<char>) -> Seq<char> {
        "duplicate loadout id '"@ + key + "'"@
    }

    fn key(&self) -> (k: &String) {
        &self.id
    }

    fn check(&self) -> (r: Result<(), String>) {
        self.validate()
    }

    fn duplicate_text(key: &String) -> (s: String) {
        let mut s = String::from_str("duplicate loadout id '");
        s.append(key.as_str());
        s.append("'");
        s
    }

    open spec fn copy_of(&self, other: &Self) -> bool {
        &&& self.id == other.id
        &&& self.ship_id == other.ship_id
        &&& self.slots@ == other.slots@
    }

    fn copy_record(&self) -> (r: Self) {
        let mut slots: Vec<SlotLoadout> = Vec::new();
        let mut i: usize = 0;
        while i < self.slots.len()
            invariant
                i <= self.slots@.len(),
                slots@ == self.slots@.take(i as int),
            decreases self.slots@.len() - i,
        {
            let c = &self.slots[i];
            let module_id = match &c.module_id {
                Some(m) => Some(m.clone()),
                None => None,
            };
            slots.push(SlotLoadout { x: c.x, y: c.y, armor_layers: c.armor_layers, module_id });
            proof {
                assert(slots@ == self.slots@.take(i + 1));
            }
            i = i + 1;
        }
        proof {
            assert(slots@ == self.slots@);
        }
        ShipLoadout { id: self.id.clone(), ship_id: self.ship_id.clone(), slots }
    }
}

} // verus!
