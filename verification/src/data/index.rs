//! A list of records keyed by their string id, checked and free of
//! duplicate ids: the storage behind the catalogs.
use vstd::prelude::*;

use crate::text::result_view;

verus! {

/// A record that a catalog holds: it has an id, can be checked, and names
/// itself in the message about a repeated id.
pub trait Keyed: Sized {
    /// The record's id.
    spec fn key_view(&self) -> Seq<char>;

    /// `Ok` when the record is valid, else the message that explains why not.
    spec fn check_spec(&self) -> Result<(), Seq<char>>;

    /// Message for a second record with id `key`.
    spec fn duplicate_message(key: Seq<char>) -> Seq<char>;

    fn key(&self) -> (k: &String)
        ensures
            k@ == self.key_view(),
    ;

    fn check(&self) -> (r: Result<(), String>)
        ensures
            result_view(r) == self.check_spec(),
    ;

    fn duplicate_text(key: &String) -> (s: String)
        ensures
            s@ == Self::duplicate_message(key@),
    ;

    /// `self` is a copy of `other`: the same record, field by field.
    spec fn copy_of(&self, other: &Self) -> bool;

    /// A copy of the record.
    fn copy_record(&self) -> (r: Self)
        ensures
            r.copy_of(self),
            r.key_view() == self.key_view(),
    ;
}

/// The records by id: each record stored under its own id, a later one
/// overriding an earlier one with the same id.
pub open spec fn map_of<T: Keyed>(entries: Seq<T>) -> Map<Seq<char>, T>
    decreases entries.len(),
{
    if entries.len() == 0 {
        Map::empty()
    } else {
        map_of(entries.drop_last()).insert(entries.last().key_view(), entries.last())
    }
}

/// No two records share an id.
pub open spec fn distinct_keys<T: Keyed>(entries: Seq<T>) -> bool {
    forall|i: int, j: int|
        0 <= i < j < entries.len() ==> #[trigger] entries[i].key_view() != #[trigger] entries[j].key_view()
}

/// Reading records in order: the first record that fails its check, or
/// repeats the id of an earlier one, stops the reading with its message;
/// otherwise the result maps each id to its record.
pub open spec fn build_spec<T: Keyed>(items: Seq<T>) -> Result<Map<Seq<char>, T>, Seq<char>>
    decreases items.len(),
{
    if items.len() == 0 {
        Ok(Map::empty())
    } else {
        match build_spec(items.drop_last()) {
            Err(e) => Err(e),
            Ok(m) => {
                let last = items.last();
                match last.check_spec() {
                    Err(e) => Err(e),
                    Ok(_) => if m.contains_key(last.key_view()) {
                        Err(T::duplicate_message(last.key_view()))
                    } else {
                        Ok(m.insert(last.key_view(), last))
                    },
                }
            },
        }
    }
}

/// Once reading stops at an error, no later record changes the outcome.
pub proof fn lemma_build_stops<T: Keyed>(items: Seq<T>, n: int)
    requires
        0 <= n <= items.len(),
        build_spec(items.take(n)) is Err,
    ensures
        build_spec(items) == build_spec(items.take(n)),
    decreases items.len(),
{
    if n < items.len() {
        let prefix = items.drop_last();
        assert(prefix.take(n) == items.take(n));
        lemma_build_stops(prefix, n);
    } else {
        assert(items.take(n) == items);
    }
}

/// Copying each record, in order, copies the map: the same ids, each with
/// a copy of its record.
pub proof fn lemma_map_of_copy<T: Keyed>(a: Seq<T>, b: Seq<T>)
    requires
        a.len() == b.len(),
        forall|j: int| 0 <= j < a.len() ==> (#[trigger] b[j]).key_view() == a[j].key_view(),
        forall|j: int| 0 <= j < a.len() ==> (#[trigger] b[j]).copy_of(&a[j]),
    ensures
        map_of(b).dom() == map_of(a).dom(),
        forall|k: Seq<char>| #[trigger] map_of(a).contains_key(k) ==> map_of(b)[k].copy_of(&map_of(a)[k]),
    decreases a.len(),
{
    if a.len() > 0 {
        let (pa, pb) = (a.drop_last(), b.drop_last());
        assert forall|j: int| 0 <= j < pa.len() implies (#[trigger] pb[j]).key_view() == pa[j].key_view()
            && pb[j].copy_of(&pa[j]) by {
            assert(pb[j] == b[j] && pa[j] == a[j]);
        }
        lemma_map_of_copy(pa, pb);
        assert(b.last() == b[a.len() - 1] && a.last() == a[a.len() - 1]);
        assert(map_of(b).dom() =~= map_of(a).dom());
    }
}

/// `map_of` stores each record under its own id.
pub proof fn lemma_map_of_keys<T: Keyed>(entries: Seq<T>)
    ensures
        forall|k: Seq<char>| #[trigger] map_of(entries).contains_key(k) ==> map_of(entries)[k].key_view() == k,
    decreases entries.len(),
{
    if entries.len() > 0 {
        let prefix = entries.drop_last();
        lemma_map_of_keys(prefix);
        assert forall|k: Seq<char>| #[trigger] map_of(entries).contains_key(k) implies map_of(entries)[k].key_view()
            == k by {
            if k != entries.last().key_view() {
                assert(map_of(prefix).contains_key(k));
            }
        }
    }
}

/// The ids of `map_of(entries)` are those of the records, and with distinct
/// ids each record is found under its own.
pub proof fn lemma_map_of<T: Keyed>(entries: Seq<T>)
    ensures
        forall|k: Seq<char>|
            map_of(entries).contains_key(k) <==> exists|i: int|
                0 <= i < entries.len() && #[trigger] entries[i].key_view() == k,
        distinct_keys(entries) ==> forall|i: int|
            0 <= i < entries.len() ==> map_of(entries)[#[trigger] entries[i].key_view()] == entries[i],
    decreases entries.len(),
{
    if entries.len() > 0 {
        let prefix = entries.drop_last();
        lemma_map_of(prefix);
        assert forall|k: Seq<char>|
            map_of(entries).contains_key(k) <==> exists|i: int|
                0 <= i < entries.len() && #[trigger] entries[i].key_view() == k by {
            let last = entries.len() - 1;
            if map_of(entries).contains_key(k) {
                if k == entries[last].key_view() {
                    assert(0 <= last < entries.len() && entries[last].key_view() == k);
                } else {
                    assert(map_of(prefix).contains_key(k));
                    let i = choose|i: int| 0 <= i < prefix.len() && #[trigger] prefix[i].key_view() == k;
                    assert(prefix[i] == entries[i]);
                    assert(0 <= i < entries.len() && entries[i].key_view() == k);
                }
            }
            if exists|i: int| 0 <= i < entries.len() && #[trigger] entries[i].key_view() == k {
                let i = choose|i: int| 0 <= i < entries.len() && #[trigger] entries[i].key_view() == k;
                if i < last {
                    assert(prefix[i] == entries[i]);
                    assert(map_of(prefix).contains_key(k));
                }
            }
        }
        if distinct_keys(entries) {
            assert(distinct_keys(prefix)) by {
                assert forall|i: int, j: int| 0 <= i < j < prefix.len() implies
                    #[trigger] prefix[i].key_view() != #[trigger] prefix[j].key_view() by {
                    assert(prefix[i] == entries[i] && prefix[j] == entries[j]);
                }
            }
            assert forall|i: int| 0 <= i < entries.len() implies
                map_of(entries)[#[trigger] entries[i].key_view()] == entries[i] by {
                if i < entries.len() - 1 {
                    assert(prefix[i] == entries[i]);
                    assert(entries[i].key_view() != entries[entries.len() - 1].key_view());
                }
            }
        }
    }
}

/// Every record passes its check.
pub open spec fn all_valid<T: Keyed>(items: Seq<T>) -> bool {
    forall|i: int| 0 <= i < items.len() ==> (#[trigger] items[i]).check_spec() is Ok
}

/// Reading succeeds exactly when every record passes its check and no two
/// records share an id; it then holds every record under its id.
pub proof fn lemma_build_accepts<T: Keyed>(items: Seq<T>)
    ensures
        build_spec(items) is Ok <==> all_valid(items) && distinct_keys(items),
        build_spec(items) is Ok ==> build_spec(items) == Ok::<Map<Seq<char>, T>, Seq<char>>(map_of(items)),
    decreases items.len(),
{
    if items.len() > 0 {
        let prefix = items.drop_last();
        let last = items.len() - 1;
        lemma_build_accepts(prefix);
        lemma_map_of(prefix);
        assert(all_valid(items) <==> all_valid(prefix) && items[last].check_spec() is Ok) by {
            if all_valid(prefix) && items[last].check_spec() is Ok {
                assert forall|i: int| 0 <= i < items.len() implies (#[trigger] items[i]).check_spec() is Ok by {
                    if i < last {
                        assert(prefix[i] == items[i]);
                    }
                }
            }
            if all_valid(items) {
                assert forall|i: int| 0 <= i < prefix.len() implies (#[trigger] prefix[i]).check_spec() is Ok by {
                    assert(prefix[i] == items[i]);
                }
            }
        }
        assert(distinct_keys(items) <==> distinct_keys(prefix) && !map_of(prefix).contains_key(
            items[last].key_view(),
        )) by {
            if distinct_keys(items) {
                assert forall|i: int, j: int| 0 <= i < j < prefix.len() implies
                    #[trigger] prefix[i].key_view() != #[trigger] prefix[j].key_view() by {
                    assert(prefix[i] == items[i] && prefix[j] == items[j]);
                }
                if map_of(prefix).contains_key(items[last].key_view()) {
                    let i = choose|i: int| 0 <= i < prefix.len() && #[trigger] prefix[i].key_view() == items[last].key_view();
                    assert(prefix[i] == items[i]);
                }
            }
            if distinct_keys(prefix) && !map_of(prefix).contains_key(items[last].key_view()) {
                assert forall|i: int, j: int| 0 <= i < j < items.len() implies
                    #[trigger] items[i].key_view() != #[trigger] items[j].key_view() by {
                    assert(prefix[i] == items[i]);
                    if j < last {
                        assert(prefix[j] == items[j]);
                    } else {
                        assert(0 <= i < prefix.len() && prefix[i].key_view() == prefix[i].key_view());
                    }
                }
            }
        }
    }
}

/// Records held by id, with no two records sharing an id.
#[derive(Debug)]
pub struct IdIndex<T: Keyed> {
    entries: Vec<T>,
}

impl<T: Keyed> View for IdIndex<T> {
    type V = Map<Seq<char>, T>;

    closed spec fn view(&self) -> Map<Seq<char>, T> {
        map_of(self.entries@)
    }
}

/// Position of the record with id `key` among `entries`, if any.
fn find_key<T: Keyed>(entries: &Vec<T>, key: &String) -> (r: Option<usize>)
    ensures
        match r {
            Some(i) => i < entries@.len() && entries@[i as int].key_view() == key@,
            None => forall|k: int| 0 <= k < entries@.len() ==> #[trigger] entries@[k].key_view() != key@,
        },
{
    let mut i: usize = 0;
    while i < entries.len()
        invariant
            i <= entries@.len(),
            forall|k: int| 0 <= k < i ==> #[trigger] entries@[k].key_view() != key@,
        decreases entries@.len() - i,
    {
        if *entries[i].key() == *key {
            return Some(i);
        }
        i = i + 1;
    }
    None
}

impl<T: Keyed> IdIndex<T> {
    /// Each id is mapped to a record with that id.
    pub proof fn lemma_keys_match(&self)
        ensures
            forall|k: Seq<char>| #[trigger] self@.contains_key(k) ==> self@[k].key_view() == k,
    {
        lemma_map_of_keys(self.entries@);
    }

    /// No two records share an id.
    #[verifier::type_invariant]
    spec fn inv(&self) -> bool {
        distinct_keys(self.entries@)
    }

    /// Reads `items` in order into an index; see `build_spec`.
    pub fn build(items: Vec<T>) -> (r: Result<Self, String>)
        ensures
            match r {
                Ok(index) => build_spec(items@) == Ok::<Map<Seq<char>, T>, Seq<char>>(index@),
                Err(e) => build_spec(items@) == Err::<Map<Seq<char>, T>, Seq<char>>(e@),
            },
    {
        let ghost all = items@;
        let mut entries: Vec<T> = Vec::new();
        for item in it: items
            invariant
                all == it.seq(),
                entries@ == all.take(it.index() as int),
                distinct_keys(entries@),
                build_spec(all.take(it.index() as int)) == Ok::<Map<Seq<char>, T>, Seq<char>>(map_of(entries@)),
        {
            let ghost i = it.index() as int;
            proof {
                assert(all.take(i + 1).drop_last() == all.take(i));
                assert(all.take(i + 1).last() == item);
                lemma_map_of(entries@);
            }
            match item.check() {
                Err(e) => {
                    proof {
                        lemma_build_stops(all, i + 1);
                    }
                    return Err(e);
                },
                Ok(()) => {},
            }
            match find_key(&entries, item.key()) {
                Some(j) => {
                    proof {
                        assert(map_of(entries@).contains_key(item.key_view()));
                        lemma_build_stops(all, i + 1);
                    }
                    return Err(T::duplicate_text(item.key()));
                },
                None => {},
            }
            entries.push(item);
            proof {
                assert(entries@.drop_last() == all.take(i));
                assert(entries@ == all.take(i + 1));
            }
        }
        proof {
            assert(all.take(all.len() as int) == all);
        }
        Ok(IdIndex { entries })
    }

    /// The record with id `id`, if any.
    pub fn get(&self, id: &str) -> (r: Option<&T>)
        ensures
            r is Some <==> self@.contains_key(id@),
            r matches Some(e) ==> *e == self@[id@] && e.key_view() == id@,
    {
        proof {
            use_type_invariant(self);
            lemma_map_of(self.entries@);
        }
        let target = String::from_str(id);
        match find_key(&self.entries, &target) {
            Some(i) => Some(&self.entries[i]),
            None => None,
        }
    }

    /// An index holding copies of the same records under the same ids.
    pub fn copy_index(&self) -> (r: Self)
        ensures
            r@.dom() == self@.dom(),
            forall|k: Seq<char>| #[trigger] self@.contains_key(k) ==> r@[k].copy_of(&self@[k]),
    {
        proof {
            use_type_invariant(self);
        }
        let mut entries: Vec<T> = Vec::new();
        let mut i: usize = 0;
        while i < self.entries.len()
            invariant
                i <= self.entries@.len(),
                entries@.len() == i,
                forall|j: int| 0 <= j < i ==> (#[trigger] entries@[j]).key_view() == self.entries@[j].key_view(),
                forall|j: int| 0 <= j < i ==> (#[trigger] entries@[j]).copy_of(&self.entries@[j]),
                distinct_keys(self.entries@),
            decreases self.entries@.len() - i,
        {
            entries.push(self.entries[i].copy_record());
            i = i + 1;
        }
        proof {
            lemma_map_of_copy(self.entries@, entries@);
            assert(distinct_keys(entries@)) by {
                assert forall|a: int, b: int| 0 <= a < b < entries@.len() implies
                    #[trigger] entries@[a].key_view() != #[trigger] entries@[b].key_view() by {
                    assert(self.entries@[a].key_view() != self.entries@[b].key_view());
                }
            }
        }
        IdIndex { entries }
    }

    /// Number of records.
    pub fn len(&self) -> (n: usize)
        ensures
            self@.dom().finite(),
            n == self@.dom().len(),
    {
        proof {
            use_type_invariant(self);
            lemma_map_of_len(self.entries@);
        }
        self.entries.len()
    }
}

/// With distinct ids, the index holds as many ids as records.
proof fn lemma_map_of_len<T: Keyed>(entries: Seq<T>)
    requires
        distinct_keys(entries),
    ensures
        map_of(entries).dom().finite(),
        map_of(entries).dom().len() == entries.len(),
    decreases entries.len(),
{
    if entries.len() > 0 {
        let prefix = entries.drop_last();
        assert(distinct_keys(prefix)) by {
            assert forall|i: int, j: int| 0 <= i < j < prefix.len() implies
                #[trigger] prefix[i].key_view() != #[trigger] prefix[j].key_view() by {
                assert(prefix[i] == entries[i] && prefix[j] == entries[j]);
            }
        }
        lemma_map_of_len(prefix);
        lemma_map_of(prefix);
        if map_of(prefix).contains_key(entries.last().key_view()) {
            let i = choose|i: int| 0 <= i < prefix.len() && #[trigger] prefix[i].key_view() == entries.last().key_view();
            assert(entries[i] == prefix[i]);
        }
    }
}

} // verus!
