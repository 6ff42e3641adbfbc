use vstd::prelude::*;

use crate::domain::loadout::lemma_ship_definition_valid;
use crate::text::is_blank_spec;

use crate::data::index::{Keyed, all_valid, build_spec, distinct_keys, lemma_build_accepts, lemma_map_of, map_of, IdIndex};
use crate::domain::loadout::ShipDefinition;

verus! {

/// The hull definitions by id.
#[derive(Debug)]
pub struct ShipCatalog {
    by_id: IdIndex<ShipDefinition>,
}

impl Clone for ShipCatalog {
    /// A catalog with the same records under the same ids.
    fn clone(&self) -> (r: Self)
        ensures
            r@ == self@,
    {
        let by_id = self.by_id.copy_index();
        proof {
            assert(by_id@ =~= self.by_id@);
        }
        ShipCatalog { by_id }
    }
}

impl View for ShipCatalog {
    type V = Map<Seq<char>, ShipDefinition>;

    closed spec fn view(&self) -> Map<Seq<char>, ShipDefinition> {
        self.by_id@
    }
}

impl ShipCatalog {
    /// Builds the catalog from hull definitions read in order. It fails with the
    /// message of the first definition that is invalid or repeats an earlier
    /// id; it succeeds exactly when all are valid and their ids distinct,
    /// and then holds each definition under its id.
    pub fn from_ships(ships: Vec<ShipDefinition>) -> (r: Result<Self, String>)
        ensures
            r is Ok <==> all_valid(ships@) && distinct_keys(ships@),
            r matches Ok(c) ==> c@ == map_of(ships@),
            r is Ok ==> forall|i: int| #![trigger ships@[i]] 0 <= i < ships@.len() ==> !is_blank_spec(ships@[i].id@) && ships@[i].grid_size > 0 && ships@[i].max_modules > 0
                && ships@[i].max_modules <= ships@[i].grid_size * ships@[i].grid_size,
            r matches Ok(c) ==> forall|k: Seq<char>|
                c@.contains_key(k) <==> exists|i: int| 0 <= i < ships@.len() && #[trigger] ships@[i].id@ == k,
            r matches Ok(c) ==> forall|i: int|
                0 <= i < ships@.len() ==> c@[#[trigger] ships@[i].id@] == ships@[i],
            r matches Err(e) ==> build_spec(ships@) == Err::<Map<Seq<char>, ShipDefinition>, Seq<char>>(e@),
    {
        proof {
            lemma_build_accepts(ships@);
            lemma_map_of(ships@);
            if all_valid(ships@) {
                assert forall|i: int| #![trigger ships@[i]] 0 <= i < ships@.len() implies !is_blank_spec(ships@[i].id@) && ships@[i].grid_size > 0 && ships@[i].max_modules > 0
                && ships@[i].max_modules <= ships@[i].grid_size * ships@[i].grid_size by {
                    lemma_ship_definition_valid(ships@[i]);
                    assert(ships@[i].check_spec() is Ok);
                }
            }
            let m = map_of(ships@);
            assert forall|k: Seq<char>|
                m.contains_key(k) <==> exists|i: int| 0 <= i < ships@.len() && #[trigger] ships@[i].id@ == k by {
                if exists|i: int| 0 <= i < ships@.len() && #[trigger] ships@[i].id@ == k {
                    let i = choose|i: int| 0 <= i < ships@.len() && #[trigger] ships@[i].id@ == k;
                    assert(ships@[i].key_view() == k);
                }
                if m.contains_key(k) {
                    let i = choose|i: int| 0 <= i < ships@.len() && #[trigger] ships@[i].key_view() == k;
                    assert(ships@[i].id@ == k);
                }
            }
            if distinct_keys(ships@) {
                assert forall|i: int| 0 <= i < ships@.len() implies m[#[trigger] ships@[i].id@] == ships@[i] by {
                    assert(ships@[i].key_view() == ships@[i].id@);
                }
            }
        }
        match IdIndex::build(ships) {
            Ok(by_id) => Ok(ShipCatalog { by_id }),
            Err(e) => Err(e),
        }
    }

    /// The hull definition with id `id`, if any.
    pub fn get(&self, id: &str) -> (r: Option<&ShipDefinition>)
        ensures
            r is Some <==> self@.contains_key(id@),
            r matches Some(a) ==> *a == self@[id@] && a.id@ == id@,
    {
        self.by_id.get(id)
    }

    /// The catalog holds each record under the record's own id.
    pub proof fn lemma_ids_match(&self)
        ensures
            forall|k: Seq<char>| #[trigger] self@.contains_key(k) ==> self@[k].id@ == k,
    {
        self.by_id.lemma_keys_match();
        assert forall|k: Seq<char>| #[trigger] self@.contains_key(k) implies self@[k].id@ == k by {
            assert(self@[k].key_view() == k);
        }
    }
}

} // verus!
