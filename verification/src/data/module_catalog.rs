use vstd::prelude::*;

use crate::domain::module::lemma_archetype_valid;
use crate::text::is_blank_spec;

use crate::data::index::{Keyed, all_valid, build_spec, distinct_keys, lemma_build_accepts, lemma_map_of, map_of, IdIndex};
use crate::domain::module::{ModuleArchetype, ModuleInstance};

verus! {

/// The module archetypes by id.
#[derive(Debug)]
pub struct ModuleCatalog {
    by_id: IdIndex<ModuleArchetype>,
}

impl Clone for ModuleCatalog {
    /// A catalog with copies of the same archetypes under the same ids.
    fn clone(&self) -> (r: Self)
        ensures
            r@.dom() == self@.dom(),
            forall|k: Seq<char>| #[trigger] self@.contains_key(k) ==> {
                &&& r@[k].id == self@[k].id
                &&& r@[k].display_name == self@[k].display_name
                &&& r@[k].kind == self@[k].kind
                &&& r@[k].max_hp == self@[k].max_hp
                &&& r@[k].attributes@ == self@[k].attributes@
            },
    {
        ModuleCatalog { by_id: self.by_id.copy_index() }
    }
}

impl View for ModuleCatalog {
    type V = Map<Seq<char>, ModuleArchetype>;

    closed spec fn view(&self) -> Map<Seq<char>, ModuleArchetype> {
        self.by_id@
    }
}

/// Message for an id that the module catalog does not hold.
pub open spec fn unknown_module_message(id: Seq<char>) -> Seq<char> {
    "unknown module id '"@ + id + "'"@
}

impl ModuleCatalog {
    /// Builds the catalog from archetypes read in order. It fails with the
    /// message of the first archetype that is invalid or repeats an earlier
    /// id; it succeeds exactly when all are valid and their ids distinct,
    /// and then holds each archetype under its id.
    pub fn from_modules(modules: Vec<ModuleArchetype>) -> (r: Result<Self, String>)
        ensures
            r is Ok <==> all_valid(modules@) && distinct_keys(modules@),
            r matches Ok(c) ==> c@ == map_of(modules@),
            r is Ok ==> forall|i: int| #![trigger modules@[i]] 0 <= i < modules@.len() ==> !is_blank_spec(modules@[i].id@) && modules@[i].max_hp > 0,
            r matches Ok(c) ==> forall|k: Seq<char>|
                c@.contains_key(k) <==> exists|i: int| 0 <= i < modules@.len() && #[trigger] modules@[i].id@ == k,
            r matches Ok(c) ==> forall|i: int|
                0 <= i < modules@.len() ==> c@[#[trigger] modules@[i].id@] == modules@[i],
            r matches Err(e) ==> build_spec(modules@) == Err::<Map<Seq<char>, ModuleArchetype>, Seq<char>>(e@),
    {
        proof {
            lemma_build_accepts(modules@);
            lemma_map_of(modules@);
            if all_valid(modules@) {
                assert forall|i: int| #![trigger modules@[i]] 0 <= i < modules@.len() implies !is_blank_spec(modules@[i].id@) && modules@[i].max_hp > 0 by {
                    lemma_archetype_valid(modules@[i]);
                    assert(modules@[i].check_spec() is Ok);
                }
            }
            let m = map_of(modules@);
            assert forall|k: Seq<char>|
                m.contains_key(k) <==> exists|i: int| 0 <= i < modules@.len() && #[trigger] modules@[i].id@ == k by {
                if exists|i: int| 0 <= i < modules@.len() && #[trigger] modules@[i].id@ == k {
                    let i = choose|i: int| 0 <= i < modules@.len() && #[trigger] modules@[i].id@ == k;
                    assert(modules@[i].key_view() == k);
                }
                if m.contains_key(k) {
                    let i = choose|i: int| 0 <= i < modules@.len() && #[trigger] modules@[i].key_view() == k;
                    assert(modules@[i].id@ == k);
                }
            }
            if distinct_keys(modules@) {
                assert forall|i: int| 0 <= i < modules@.len() implies m[#[trigger] modules@[i].id@] == modules@[i] by {
                    assert(modules@[i].key_view() == modules@[i].id@);
                }
            }
        }
        match IdIndex::build(modules) {
            Ok(by_id) => Ok(ModuleCatalog { by_id }),
            Err(e) => Err(e),
        }
    }

    /// The archetype with id `id`, if any.
    pub fn get(&self, id: &str) -> (r: Option<&ModuleArchetype>)
        ensures
            r is Some <==> self@.contains_key(id@),
            r matches Some(a) ==> *a == self@[id@] && a.id@ == id@,
    {
        self.by_id.get(id)
    }

    /// The catalog holds each record under the record's own id.
    pub proof fn lemma_ids_match(&self)
        ensures
            forall|k: Seq<char>| #[trigger] self@.contains_key(k) ==> self@[k].id@ == k,
    {
        self.by_id.lemma_keys_match();
        assert forall|k: Seq<char>| #[trigger] self@.contains_key(k) implies self@[k].id@ == k by {
            assert(self@[k].key_view() == k);
        }
    }

    /// A fresh module of archetype `id`, at full hit points; fails when the
    /// catalog has no such archetype.
    pub fn spawn_instance(&self, id: &str) -> (r: Result<ModuleInstance, String>)
        ensures
            self@.contains_key(id@) ==> r == Ok::<ModuleInstance, String>(
                ModuleInstance { archetype_id: self@[id@].id, hp: self@[id@].max_hp },
            ),
            !self@.contains_key(id@) ==> (r matches Err(e) && e@ == unknown_module_message(id@)),
            r matches Ok(m) ==> m.archetype_id@ == id@,
    {
        match self.get(id) {
            Some(archetype) => Ok(ModuleInstance::from_archetype(archetype)),
            None => {
                let mut msg = String::from_str("unknown module id '");
                msg.append(id);
                msg.append("'");
                Err(msg)
            },
        }
    }

    /// Number of archetypes.
    pub fn module_count(&self) -> (n: usize)
        ensures
            self@.dom().finite(),
            n == self@.dom().len(),
    {
        self.by_id.len()
    }
}

} // verus!
