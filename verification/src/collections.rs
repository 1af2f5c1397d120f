//! The collections in which the parser keeps its notes.
//!
//! They are the ones of `indexmap`, which remember the order of insertion, and
//! the hash tables of `std` with the hasher of `rustc_hash`. Each function
//! here makes one call into them. What the calls do is stated, not proved:
//! the contracts speak of the contents of a collection, which is given a name
//! of its own for each of them.

use indexmap::{IndexMap, IndexSet};
use rustc_hash::{FxHashMap, FxHashSet};
use vstd::prelude::*;

verus! {

/// The hasher of `rustc_hash`.
#[verifier::external_type_specification]
#[verifier::external_body]
pub struct ExFxBuildHasher(rustc_hash::FxBuildHasher);

/// The set of `indexmap`, which keeps its items in the order of insertion.
#[verifier::external_type_specification]
#[verifier::external_body]
#[verifier::reject_recursive_types(T)]
#[verifier::reject_recursive_types(S)]
pub struct ExIndexSet<T, S>(indexmap::IndexSet<T, S>);

/// The map of `indexmap`, which keeps its entries in the order of insertion.
#[verifier::external_type_specification]
#[verifier::external_body]
#[verifier::reject_recursive_types(K)]
#[verifier::reject_recursive_types(V)]
#[verifier::reject_recursive_types(S)]
pub struct ExIndexMap<K, V, S>(indexmap::IndexMap<K, V, S>);

/// The items of a set of texts, in the order of insertion.
pub uninterp spec fn text_set(set: IndexSet<&'static str>) -> Seq<Seq<char>>;

/// The entries of a map from the ends of a span to a text, in the order of
/// insertion.
pub uninterp spec fn text_map(map: IndexMap<(usize, usize), String>) -> Seq<
    ((usize, usize), Seq<char>),
>;

/// The entries of a map from the ends of a span to a set of texts.
pub uninterp spec fn text_set_map(
    map: FxHashMap<(usize, usize), IndexSet<&'static str>>,
) -> Map<(usize, usize), Seq<Seq<char>>>;

/// The items of a set of pairs.
pub uninterp spec fn pair_set(set: FxHashSet<(usize, usize)>) -> Set<(usize, usize)>;

/// A sequence of texts after adding one at the end, unless it is there.
pub open spec fn add_text(texts: Seq<Seq<char>>, text: Seq<char>) -> Seq<Seq<char>> {
    if texts.contains(text) {
        texts
    } else {
        texts.push(text)
    }
}

/// Tells whether a sequence of entries has one with the given key.
pub open spec fn has_key(
    entries: Seq<((usize, usize), Seq<char>)>,
    key: (usize, usize),
) -> bool {
    exists|i: int| 0 <= i < entries.len() && (#[trigger] entries[i]).0 == key
}

/// `IndexSet::new`: the set is empty.
#[verifier::external_body]
pub(crate) fn new_text_set() -> (set: IndexSet<&'static str>)
    ensures
        text_set(set) == Seq::<Seq<char>>::empty(),
{
    IndexSet::new()
}

/// `IndexSet::insert`: an item that the set lacks goes last, one that it has
/// stays where it is.
#[verifier::external_body]
pub(crate) fn insert_text(set: &mut IndexSet<&'static str>, text: &'static str)
    ensures
        text_set(*final(set)) == add_text(text_set(*old(set)), text@),
{
    set.insert(text);
}

/// `IndexSet::into_iter`: hands the items out in the order of insertion.
#[verifier::external_body]
pub(crate) fn texts_in_order(set: IndexSet<&'static str>) -> (texts: Vec<&'static str>)
    ensures
        texts@.len() == text_set(set).len(),
        forall|i: int| 0 <= i < texts@.len() ==> (#[trigger] texts@[i])@ == text_set(set)[i],
{
    set.into_iter().collect()
}

/// `IndexMap::new`: the map is empty.
#[verifier::external_body]
pub(crate) fn new_text_map() -> (map: IndexMap<(usize, usize), String>)
    ensures
        text_map(map) == Seq::<((usize, usize), Seq<char>)>::empty(),
{
    IndexMap::new()
}

/// `IndexMap::is_empty`: tells whether there is no entry.
#[verifier::external_body]
pub(crate) fn text_map_is_empty(map: &IndexMap<(usize, usize), String>) -> (yes: bool)
    ensures
        yes == (text_map(*map).len() == 0),
{
    map.is_empty()
}

/// `IndexMap::contains_key`: tells whether there is an entry with the key.
#[verifier::external_body]
pub(crate) fn text_map_contains(
    map: &IndexMap<(usize, usize), String>,
    key: (usize, usize),
) -> (yes: bool)
    ensures
        yes == has_key(text_map(*map), key),
{
    map.contains_key(&key)
}

/// `IndexMap::insert`: the entry goes last if the key is new; if it is not,
/// the value is replaced where it is.
#[verifier::external_body]
pub(crate) fn text_map_insert(
    map: &mut IndexMap<(usize, usize), String>,
    key: (usize, usize),
    text: String,
)
    ensures
        !has_key(text_map(*old(map)), key) ==> text_map(*final(map)) == text_map(*old(map)).push(
            (key, text@),
        ),
        has_key(text_map(*old(map)), key) ==> {
            &&& text_map(*final(map)).len() == text_map(*old(map)).len()
            &&& forall|i: int|
                0 <= i < text_map(*old(map)).len() ==> #[trigger] text_map(*final(map))[i] == (
                    text_map(*old(map))[i].0,
                    if text_map(*old(map))[i].0 == key {
                        text@
                    } else {
                        text_map(*old(map))[i].1
                    },
                )
        },
{
    map.insert(key, text);
}

/// `IndexMap::drain` over all the entries: hands them out in the order of
/// insertion and leaves the map empty.
#[verifier::external_body]
pub(crate) fn text_map_drain(map: &mut IndexMap<(usize, usize), String>) -> (entries: Vec<
    ((usize, usize), String),
>)
    ensures
        text_map(*final(map)) == Seq::<((usize, usize), Seq<char>)>::empty(),
        entries@.len() == text_map(*old(map)).len(),
        forall|i: int|
            0 <= i < entries@.len() ==> (
            (#[trigger] entries@[i]).0,
            entries@[i].1@,
        ) == text_map(*old(map))[i],
{
    map.drain(0..).collect()
}

/// `HashMap::default`: the map is empty.
#[verifier::external_body]
pub(crate) fn new_text_set_map() -> (map: FxHashMap<(usize, usize), IndexSet<&'static str>>)
    ensures
        text_set_map(map) == (Map::<(usize, usize), Seq<Seq<char>>>::empty()),
{
    FxHashMap::default()
}

/// `HashMap::remove`: takes the entry with the key out of the map, if there is
/// one, and returns its value.
#[verifier::external_body]
pub(crate) fn text_set_map_remove(
    map: &mut FxHashMap<(usize, usize), IndexSet<&'static str>>,
    key: (usize, usize),
) -> (set: Option<IndexSet<&'static str>>)
    ensures
        text_set_map(*final(map)) == text_set_map(*old(map)).remove(key),
        match set {
            Some(set) => text_set_map(*old(map)).contains_key(key) && text_set(set)
                == text_set_map(*old(map))[key],
            None => !text_set_map(*old(map)).contains_key(key),
        },
{
    map.remove(&key)
}

/// `HashMap::insert`: the map has the value under the key, whether or not it
/// had another one.
#[verifier::external_body]
pub(crate) fn text_set_map_insert(
    map: &mut FxHashMap<(usize, usize), IndexSet<&'static str>>,
    key: (usize, usize),
    set: IndexSet<&'static str>,
)
    ensures
        text_set_map(*final(map)) == text_set_map(*old(map)).insert(key, text_set(set)),
{
    map.insert(key, set);
}

/// `HashMap::clear`: leaves the map empty.
#[verifier::external_body]
pub(crate) fn text_set_map_clear(map: &mut FxHashMap<(usize, usize), IndexSet<&'static str>>)
    ensures
        text_set_map(*final(map)) == (Map::<(usize, usize), Seq<Seq<char>>>::empty()),
{
    map.clear();
}

/// `HashMap::drain`: hands each entry out once, in no particular order, and
/// leaves the map empty.
#[verifier::external_body]
pub(crate) fn text_set_map_drain(
    map: &mut FxHashMap<(usize, usize), IndexSet<&'static str>>,
) -> (entries: Vec<((usize, usize), IndexSet<&'static str>)>)
    ensures
        text_set_map(*final(map)) == (Map::<(usize, usize), Seq<Seq<char>>>::empty()),
        forall|i: int|
            0 <= i < entries@.len() ==> text_set_map(*old(map)).contains_key(
                (#[trigger] entries@[i]).0,
            ) && text_set(entries@[i].1) == text_set_map(*old(map))[entries@[i].0],
        forall|key: (usize, usize)| #[trigger]
            text_set_map(*old(map)).contains_key(key) ==> exists|i: int|
                0 <= i < entries@.len() && (#[trigger] entries@[i]).0 == key,
        forall|i: int, j: int|
            0 <= i < j < entries@.len() ==> (#[trigger] entries@[i]).0 != (
            #[trigger] entries@[j]).0,
{
    map.drain().collect()
}

/// `HashSet::default`: the set is empty.
#[verifier::external_body]
pub(crate) fn new_pair_set() -> (set: FxHashSet<(usize, usize)>)
    ensures
        pair_set(set) == Set::<(usize, usize)>::empty(),
{
    FxHashSet::default()
}

/// `HashSet::contains`: tells whether the pair is in the set.
#[verifier::external_body]
pub(crate) fn pair_set_contains(set: &FxHashSet<(usize, usize)>, pair: (usize, usize)) -> (yes:
    bool)
    ensures
        yes == pair_set(*set).contains(pair),
{
    set.contains(&pair)
}

/// `HashSet::insert`: the pair is in the set, whether or not it was.
#[verifier::external_body]
pub(crate) fn pair_set_insert(set: &mut FxHashSet<(usize, usize)>, pair: (usize, usize))
    ensures
        pair_set(*final(set)) == pair_set(*old(set)).insert(pair),
{
    set.insert(pair);
}

/// `HashSet::clear`: leaves the set empty.
#[verifier::external_body]
pub(crate) fn pair_set_clear(set: &mut FxHashSet<(usize, usize)>)
    ensures
        pair_set(*final(set)) == Set::<(usize, usize)>::empty(),
{
    set.clear();
}

/// `HashSet::drain`: hands each item out once, in no particular order, and
/// leaves the set empty.
#[verifier::external_body]
pub(crate) fn pair_set_drain(set: &mut FxHashSet<(usize, usize)>) -> (items: Vec<(usize, usize)>)
    ensures
        pair_set(*final(set)) == Set::<(usize, usize)>::empty(),
        forall|pair: (usize, usize)| #[trigger]
            items@.contains(pair) <==> pair_set(*old(set)).contains(pair),
        items@.no_duplicates(),
{
    set.drain().collect()
}

} // verus!
