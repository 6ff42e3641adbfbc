use vstd::prelude::*;

use crate::data::index::Keyed;
use crate::text::{is_blank, is_blank_spec, result_view};

verus! {

/// What a module does on board.
#[derive(Debug, Clone, Copy, PartialEq, Eq, Structural)]
pub enum ModuleKind {
    ShieldGenerator,
    Gun,
    MissileLauncher,
    Sensor,
    Utility,
}

/// A kind of module as the module catalog describes it.
#[derive(Debug, Clone)]
pub struct ModuleArchetype {
    pub id: String,
    pub display_name: String,
    pub kind: ModuleKind,
    pub max_hp: u32,
    /// Named numeric attributes, by name in ascending order; each value is
    /// the IEEE-754 bit pattern of a 32-bit float. The rules do not read them.
    pub attributes: Vec<(String, u32)>,
}

impl ModuleArchetype {
    /// `Ok` for a usable archetype, else the reason it is not: a blank id
    /// or zero hit points, checked in that order.
    pub open spec fn validate_spec(&self) -> Result<(), Seq<char>> {
        if is_blank_spec(self.id@) {
            Err("module id cannot be empty"@)
        } else if self.max_hp == 0 {
            Err("module '"@ + self.id@ + "' has invalid max_hp=0"@)
        } else {
            Ok(())
        }
    }

    /// Checks the archetype; see `validate_spec`.
    pub fn validate(&self) -> (r: Result<(), String>)
        ensures
            result_view(r) == self.validate_spec(),
            r is Ok <==> (!is_blank_spec(self.id@) && self.max_hp > 0),
    {
        if is_blank(self.id.as_str()) {
            return Err(String::from_str("module id cannot be empty"));
        }
        if self.max_hp == 0 {
            let mut msg = String::from_str("module '");
            msg.append(self.id.as_str());
            msg.append("' has invalid max_hp=0");
            return Err(msg);
        }
        Ok(())
    }
}

/// An archetype is valid exactly when its id is not blank and it has hit
/// points.
pub proof fn lemma_archetype_valid(a: ModuleArchetype)
    ensures
        a.validate_spec() is Ok <==> (!is_blank_spec(a.id@) && a.max_hp > 0),
{
}

impl Keyed for ModuleArchetype {
    open spec fn key_view(&self) -> Seq<char> {
        self.id@
    }

    open spec fn check_spec(&self) -> Result<(), Seq<char>> {
        self.validate_spec()
    }

    open spec fn duplicate_message(key: Seq<char>) -> Seq<char> {
        "duplicate module id '"@ + key + "'"@
    }

    fn key(&self) -> (k: &String) {
        &self.id
    }

    fn check(&self) -> (r: Result<(), String>) {
        self.validate()
    }

    fn duplicate_text(key: &String) -> (s: String) {
        let mut s = String::from_str("duplicate module id '");
        s.append(key.as_str());
        s.append("'");
        s
    }

    open spec fn copy_of(&self, other: &Self) -> bool {
        &&& self.id == other.id
        &&& self.display_name == other.display_name
        &&& self.kind == other.kind
        &&& self.max_hp == other.max_hp
        &&& self.attributes@ == other.attributes@
    }

    fn copy_record(&self) -> (r: Self) {
        let mut attributes: Vec<(String, u32)> = Vec::new();
        let mut i: usize = 0;
        while i < self.attributes.len()
            invariant
                i <= self.attributes@.len(),
                attributes@ == self.attributes@.take(i as int),
            decreases self.attributes@.len() - i,
        {
            let (name, bits) = &self.attributes[i];
            attributes.push((name.clone(), *bits));
            proof {
                assert(attributes@ == self.attributes@.take(i + 1));
            }
            i = i + 1;
        }
        proof {
            assert(attributes@ == self.attributes@);
        }
        ModuleArchetype {
            id: self.id.clone(),
            display_name: self.display_name.clone(),
            kind: self.kind,
            max_hp: self.max_hp,
            attributes,
        }
    }
}

/// A running module placed in a ship slot.
#[derive(Debug, Clone)]
pub struct ModuleInstance {
    pub archetype_id: String,
    pub hp: u32,
}

impl ModuleInstance {
    /// A fresh module of the given archetype, at full hit points.
    pub fn from_archetype(archetype: &ModuleArchetype) -> (m: Self)
        ensures
            m == (ModuleInstance { archetype_id: archetype.id, hp: archetype.max_hp }),
    {
        ModuleInstance { archetype_id: archetype.id.clone(), hp: archetype.max_hp }
    }

    /// A module is destroyed once its hit points reach zero.
    pub fn is_destroyed(&self) -> (r: bool)
        ensures
            r == (self.hp == 0),
    {
        self.hp == 0
    }
}

} // verus!
