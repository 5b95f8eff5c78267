//! The multiset, its operations, and what is taken on trust from `HashMap`.

use vstd::prelude::*;
use vstd::std_specs::cmp::PartialEqSpec;
use vstd::std_specs::cmp::PartialEqSpecImpl;
use vstd::std_specs::hash::*;
use vstd::std_specs::iter::IteratorSpec;
use std::borrow::Borrow;
use std::collections::hash_map::Entry;
use std::collections::hash_map::RandomState;
use std::collections::hash_map::Iter;
use std::collections::hash_map::Keys;
use std::collections::hash_map::Values;
use std::collections::HashMap;
use std::collections::HashSet;
use std::hash::BuildHasher;
use std::hash::Hash;
use std::ops::Index;
use crate::count::Count;
use crate::sums::{
    by_amount,
    by_gain,
    by_loss,
    gains,
    lemma_listed_sum,
    lemma_part_is_bounded,
    listed_sum_by,
    lists,
    lists_counts,
    losses,
    total,
};

verus! {

broadcast use vstd::std_specs::hash::group_hash_axioms;

/// A collection that stores each distinct item once, with a count.
///
/// An entry stays until it is removed: a count of zero does not remove it.
#[verifier::reject_recursive_types(T)]
#[verifier::reject_recursive_types(C)]
#[verifier::reject_recursive_types(S)]
#[derive(Debug)]
pub struct HashMultiset<T, C = usize, S = RandomState> {
    items: HashMap<T, C, S>,
}

/// Whether hash maps keyed by `T` and hashed by `S` behave as maps.
pub open spec fn hashes_well<T, S>() -> bool {
    obeys_key_model::<T>() && builds_valid_hashers::<S>()
}

/// The amount stored for `x` in `m`, zero where `m` has no entry for it.
pub open spec fn amount_of<T, C: Count>(m: Map<T, C>, x: T) -> int {
    if m.contains_key(x) {
        m[x].amount()
    } else {
        0
    }
}

/// Whether two maps have entries for the same items, with counts that are
/// equal by `==` of `C`.
pub open spec fn entries_agree<T, C: PartialEq>(m: Map<T, C>, other: Map<T, C>) -> bool {
    &&& m.dom() == other.dom()
    &&& forall|k: T| #[trigger] m.contains_key(k) ==> m[k].eq_spec(&other[k])
}

/// The map after `c` is added to the count of `x`.
pub open spec fn inserted<T, C: Count>(m: Map<T, C>, x: T, c: C) -> Map<T, C> {
    m.insert(x, C::of_amount(amount_of(m, x) + c.amount()))
}

/// Whether `m` is keyed and hashed so that it behaves as a map.
pub open spec fn keyed_well<T, C, S>(m: &HashMap<T, C, S>) -> bool {
    hashes_well::<T, S>()
}

/// `HashMap::with_hasher` returns a map without entries.
pub assume_specification<K, V, S>[ HashMap::<K, V, S>::with_hasher ](hash_builder: S) -> (m:
    HashMap<K, V, S>)
    ensures
        m@.dom() == Set::<K>::empty(),
;

/// `HashMap::with_capacity_and_hasher` returns a map without entries.
pub assume_specification<K, V, S>[ HashMap::<K, V, S>::with_capacity_and_hasher ](
    capacity: usize,
    hash_builder: S,
) -> (m: HashMap<K, V, S>)
    ensures
        m@.dom() == Set::<K>::empty(),
;

/// Calls `HashMap::capacity`. The number it returns is a lower bound on what
/// the map can hold without reallocating, so it is at least the number of
/// entries; no more is known of it.
#[verifier::external_body]
fn room_of<T, C, S>(m: &HashMap<T, C, S>) -> (r: usize)
    ensures
        keyed_well(m) ==> m@.dom().len() <= r,
{
    m.capacity()
}

/// Asks `keep` about one entry.
fn keeps<T, C, F: Fn(&T, &C) -> bool>(keep: &F, item: &T, count: &C) -> (r: bool)
    requires
        keep.requires((item, count)),
    ensures
        keep.ensures((item, count), r),
{
    keep(item, count)
}

/// Calls `HashMap::retain`, which asks `keep` once about every entry, removes
/// the entries for which the answer is `false`, and leaves the others as they
/// are.
#[verifier::external_body]
fn retain_entries<T, C, S, F: Fn(&T, &C) -> bool>(m: &mut HashMap<T, C, S>, keep: F)
    requires
        forall|t: &T, c: &C|
            old(m)@.contains_key(*t) && old(m)@[*t] == *c ==> #[trigger] keep.requires((t, c)),
    ensures
        forall|k: T| #[trigger]
            final(m)@.contains_key(k) ==> old(m)@.contains_key(k) && final(m)@[k] == old(m)@[k]
                && keep.ensures((&k, &old(m)@[k]), true),
        forall|k: T|
            old(m)@.contains_key(k) && !(#[trigger] final(m)@.contains_key(k)) ==> keep.ensures(
                (&k, &old(m)@[k]),
                false,
            ),
{
    m.retain(|t, c| keeps(&keep, t, c))
}

/// Calls `HashMap::get_key_value`, which finds the entry whose key borrows
/// to `item` and returns its key and value, or `None` where there is no such
/// entry.
#[verifier::external_body]
fn entry_of<'a, T: Eq + Hash + Borrow<Q>, C, S: BuildHasher, Q: ?Sized + Eq + Hash>(
    m: &'a HashMap<T, C, S>,
    item: &Q,
) -> (r: Option<(&'a T, &'a C)>)
    ensures
        keyed_well(m) ==> match r {
            Some((t, c)) => {
                &&& m@.contains_key(*t)
                &&& m@[*t] == *c
                &&& maps_borrowed_key_to_value(m@, item, *c)
                &&& contains_borrowed_key(Map::empty().insert(*t, *c), item)
            },
            None => !contains_borrowed_key(m@, item),
        },
{
    m.get_key_value(item)
}

/// Calls `==` of two `HashMap`s, which holds where both have entries for the
/// same keys and the two values of each key are equal by `==` of `C`.
#[verifier::external_body]
fn same_entries<T: Eq + Hash, C: PartialEq, S: BuildHasher>(
    m: &HashMap<T, C, S>,
    other: &HashMap<T, C, S>,
) -> (r: bool)
    ensures
        keyed_well(m) && C::obeys_eq_spec() ==> r == entries_agree(m@, other@),
{
    m == other
}

/// Calls `HashMap::into_keys` and collects what it yields: every key of the
/// map once, in an order that is not fixed.
#[verifier::external_body]
fn keys_of<T, C, S>(m: HashMap<T, C, S>) -> (r: Vec<T>)
    ensures
        keyed_well(&m) ==> r@.no_duplicates() && r@.to_set() == m@.dom(),
{
    m.into_keys().collect()
}

/// Calls `HashMap::into_values` and collects what it yields: the value of
/// every entry of the map, one for each entry, in an order that is not fixed.
#[verifier::external_body]
fn values_of<T, C, S>(m: HashMap<T, C, S>) -> (r: Vec<C>)
    ensures
        keyed_well(&m) ==> lists_counts(r@, m@),
{
    m.into_values().collect()
}

/// Calls `HashMap::into_keys` and collects the keys into a `HashSet` with a
/// default hasher: the set holds exactly the keys of the map.
#[verifier::external_body]
fn key_set_of<T: Eq + Hash, C, S: BuildHasher + Default>(m: HashMap<T, C, S>) -> (r: HashSet<T, S>)
    ensures
        keyed_well(&m) ==> r@ == m@.dom(),
{
    m.into_keys().collect()
}

impl<T, C, S> View for HashMultiset<T, C, S> {
    type V = Map<T, C>;

    closed spec fn view(&self) -> Map<T, C> {
        self.items@
    }
}

impl<T, C, S> HashMultiset<T, C, S> {
    /// A multiset has finitely many entries.
    pub proof fn lemma_finite(&self)
        ensures
            self@.dom().finite(),
    {
        let listing = spec_hash_map_iter(&self.items).remaining();
        let keys = Seq::new(listing.len(), |i: int| *listing[i].0);
        assert forall|k: T| self.items@.contains_key(k) implies keys.contains(k) by {
            let i = choose|i: int| 0 <= i < listing.len() && listing[i] == (&k, &self.items@[k]);
            assert(keys[i] == k);
        }
        assert forall|k: T| keys.contains(k) implies self.items@.contains_key(k) by {
            let i = choose|i: int| 0 <= i < keys.len() && keys[i] == k;
            assert(self.items@.contains_key(*listing[i].0));
        }
        assert(keys.to_set() =~= self.items@.dom());
        vstd::seq_lib::seq_to_set_is_finite(keys);
    }
}

impl<T, C> HashMultiset<T, C> {
    /// An empty multiset.
    pub fn new() -> (r: HashMultiset<T, C>)
        ensures
            r@ == Map::<T, C>::empty(),
    {
        HashMultiset { items: HashMap::new() }
    }

    /// An empty multiset with room for `capacity` entries.
    pub fn with_capacity(capacity: usize) -> (r: HashMultiset<T, C>)
        ensures
            r@ == Map::<T, C>::empty(),
    {
        HashMultiset { items: HashMap::with_capacity(capacity) }
    }
}

impl<T: Eq + Hash, C: PartialEq, S: BuildHasher> PartialEq for HashMultiset<T, C, S> {
    /// Whether both multisets hold the same items with equal counts.
    fn eq(&self, other: &HashMultiset<T, C, S>) -> (r: bool) {
        same_entries(&self.items, &other.items)
    }
}

impl<T: Eq + Hash, C: PartialEq, S: BuildHasher> PartialEqSpecImpl for HashMultiset<T, C, S> {
    open spec fn obeys_eq_spec() -> bool {
        hashes_well::<T, S>() && C::obeys_eq_spec()
    }

    open spec fn eq_spec(&self, other: &HashMultiset<T, C, S>) -> bool {
        entries_agree(self@, other@)
    }
}

impl<T: Eq + Hash, C: Eq, S: BuildHasher> Eq for HashMultiset<T, C, S> {
}

impl<'a, T: Eq + Hash + Borrow<Q>, C, S: BuildHasher, Q: ?Sized + Eq + Hash> Index<&'a Q>
    for HashMultiset<T, C, S> {
    type Output = C;

    /// The count stored for `item`, which must have an entry.
    fn index(&self, item: &'a Q) -> (r: &C)
        ensures
            maps_borrowed_key_to_value(self@, item, *r),
    {
        match self.items.get(item) {
            Some(c) => c,
            None => vstd::pervasive::unreached(),
        }
    }
}

impl<'a, T: Eq + Hash + Borrow<Q>, C, S: BuildHasher, Q: ?Sized + Eq + Hash>
    vstd::std_specs::core::IndexSpecImpl<&'a Q> for HashMultiset<T, C, S> {
    open spec fn index_req(&self, item: &&'a Q) -> bool {
        hashes_well::<T, S>() && contains_borrowed_key(self@, *item)
    }
}

impl<T: Clone, C: Clone, S: Clone> Clone for HashMultiset<T, C, S> {
    /// A multiset with the same entries.
    fn clone(&self) -> (r: HashMultiset<T, C, S>)
        ensures
            r@ == self@,
    {
        HashMultiset { items: self.items.clone() }
    }
}

impl<T, C, S: Default> Default for HashMultiset<T, C, S> {
    /// An empty multiset with a default hasher.
    fn default() -> (r: HashMultiset<T, C, S>)
        ensures
            r@ == Map::<T, C>::empty(),
    {
        HashMultiset { items: HashMap::default() }
    }
}

impl<T, C, S> HashMultiset<T, C, S> {
    /// An empty multiset that hashes with `hash_builder`.
    pub fn with_hasher(hash_builder: S) -> (r: HashMultiset<T, C, S>)
        ensures
            r@ == Map::<T, C>::empty(),
    {
        let r = HashMultiset { items: HashMap::with_hasher(hash_builder) };
        assert(r@ =~= Map::<T, C>::empty());
        r
    }

    /// An empty multiset with room for `capacity` entries that hashes with
    /// `hash_builder`.
    pub fn with_capacity_and_hasher(capacity: usize, hash_builder: S) -> (r: HashMultiset<T, C, S>)
        ensures
            r@ == Map::<T, C>::empty(),
    {
        let r = HashMultiset { items: HashMap::with_capacity_and_hasher(capacity, hash_builder) };
        assert(r@ =~= Map::<T, C>::empty());
        r
    }

    /// A lower bound on the number of entries that fit without reallocating.
    pub fn capacity(&self) -> (r: usize)
        ensures
            hashes_well::<T, S>() ==> self@.len() <= r,
    {
        room_of(&self.items)
    }

    /// Removes the entries that `keep` rejects, and leaves the others as
    /// they are. `keep` sees each count by shared reference.
    pub fn retain<F: Fn(&T, &C) -> bool>(&mut self, keep: F)
        requires
            forall|t: &T, c: &C|
                old(self)@.contains_key(*t) && old(self)@[*t] == *c ==> #[trigger] keep.requires(
                    (t, c),
                ),
        ensures
            final(self)@.dom().finite(),
            forall|k: T| #[trigger]
                final(self)@.contains_key(k) ==> old(self)@.contains_key(k) && final(self)@[k]
                    == old(self)@[k] && keep.ensures((&k, &old(self)@[k]), true),
            forall|k: T|
                old(self)@.contains_key(k) && !(#[trigger] final(self)@.contains_key(k))
                    ==> keep.ensures((&k, &old(self)@[k]), false),
    {
        retain_entries(&mut self.items, keep);
        proof {
            self.lemma_finite();
        }
    }

    /// The entries, each once, in an order that is not fixed.
    pub fn iter(&self) -> (r: Iter<'_, T, C>)
        ensures
            hashes_well::<T, S>() ==> {
                &&& lists(r.remaining().unref(), self@)
                &&& r.remaining().no_duplicates()
                &&& IteratorSpec::decrease(&r) is Some
                &&& IteratorSpec::initial_value_relation(&r, &r)
            },
    {
        let r = self.items.iter();
        proof {
            self.lemma_finite();
            if hashes_well::<T, S>() {
                let all = r.remaining().unref();
                assert forall|i: int, j: int| 0 <= i < j < all.len() implies all[i] != all[j] by {
                    assert(r.remaining()[i] != r.remaining()[j]);
                }
            }
        }
        r
    }

    /// The items, each once, in an order that is not fixed.
    pub fn items(&self) -> (r: Keys<'_, T, C>)
        ensures
            hashes_well::<T, S>() ==> {
                &&& r.remaining().unref().to_set() == self@.dom()
                &&& r.remaining().no_duplicates()
                &&& r.remaining().len() == self@.len()
                &&& IteratorSpec::decrease(&r) is Some
                &&& IteratorSpec::initial_value_relation(&r, &r)
            },
    {
        self.items.keys()
    }

    /// The items, each once, in an order that is not fixed.
    pub fn into_items(self) -> (r: Vec<T>)
        ensures
            hashes_well::<T, S>() ==> r@.no_duplicates() && r@.to_set() == self@.dom(),
    {
        keys_of(self.items)
    }

    /// The counts, one for each entry, in an order that is not fixed.
    pub fn counts(&self) -> (r: Values<'_, T, C>)
        ensures
            hashes_well::<T, S>() ==> {
                &&& r.remaining().unref().to_set() == self@.values()
                &&& r.remaining().len() == self@.len()
                &&& IteratorSpec::decrease(&r) is Some
                &&& IteratorSpec::initial_value_relation(&r, &r)
            },
    {
        self.items.values()
    }

    /// The counts, one for each entry, in an order that is not fixed.
    pub fn into_counts(self) -> (r: Vec<C>)
        ensures
            hashes_well::<T, S>() ==> lists_counts(r@, self@),
    {
        values_of(self.items)
    }

    /// Removes every entry.
    pub fn clear(&mut self)
        ensures
            final(self)@ == Map::<T, C>::empty(),
    {
        self.items.clear()
    }

    /// Whether there is no entry.
    pub fn is_empty(&self) -> (r: bool)
        ensures
            r == self@.is_empty(),
    {
        self.items.is_empty()
    }

    /// The number of distinct items, whatever their counts.
    pub fn len(&self) -> (r: usize)
        ensures
            self@.dom().finite(),
            hashes_well::<T, S>() ==> r == self@.len(),
    {
        proof {
            self.lemma_finite();
        }
        self.items.len()
    }
}

impl<T: Eq + Hash, C, S: BuildHasher> HashMultiset<T, C, S> {
    /// The count stored for `item`, if there is an entry for it.
    pub fn get<Q: ?Sized + Eq + Hash>(&self, item: &Q) -> (r: Option<&C>) where T: Borrow<Q>
        ensures
            hashes_well::<T, S>() ==> match r {
                Some(c) => maps_borrowed_key_to_value(self@, item, *c),
                None => !contains_borrowed_key(self@, item),
            },
    {
        self.items.get(item)
    }

    /// The stored item and its count, if there is an entry for `item`.
    pub fn get_key_value<Q: ?Sized + Eq + Hash>(&self, item: &Q) -> (r: Option<(&T, &C)>) where
        T: Borrow<Q>,

        ensures
            hashes_well::<T, S>() ==> match r {
                Some((t, c)) => {
                    &&& self@.contains_key(*t)
                    &&& self@[*t] == *c
                    &&& maps_borrowed_key_to_value(self@, item, *c)
                    &&& contains_borrowed_key(Map::<T, C>::empty().insert(*t, *c), item)
                },
                None => !contains_borrowed_key(self@, item),
            },
    {
        entry_of(&self.items, item)
    }

    /// The set of the distinct items.
    pub fn into_set(self) -> (r: HashSet<T, S>) where S: Default
        ensures
            hashes_well::<T, S>() ==> r@ == self@.dom(),
    {
        key_set_of(self.items)
    }

    /// Removes the entry for `item` and returns its count, if there was one.
    pub fn remove_all<Q: ?Sized + Eq + Hash>(&mut self, item: &Q) -> (r: Option<C>) where
        T: Borrow<Q>,

        ensures
            hashes_well::<T, S>() ==> borrowed_key_removed(old(self)@, final(self)@, item),
            hashes_well::<T, S>() ==> match r {
                Some(c) => maps_borrowed_key_to_value(old(self)@, item, c),
                None => !contains_borrowed_key(old(self)@, item),
            },
    {
        self.items.remove(item)
    }
}

impl<T, C: Count, S> HashMultiset<T, C, S> {
    /// The sum of all stored counts.
    ///
    /// The counts are added in no particular order, so every part of them
    /// must have a sum that `C` holds: the positive ones together, and the
    /// negative ones together.
    pub fn cardinality(&self) -> (r: C)
        requires
            hashes_well::<T, S>(),
            C::holds(gains(self@)),
            C::holds(losses(self@)),
        ensures
            r.amount() == total(self@),
    {
        let entries = self.items.iter();
        let ghost all: Seq<(T, C)> = entries.remaining().unref();
        proof {
            self.lemma_finite();
            assert forall|i: int, j: int| 0 <= i < j < all.len() implies all[i] != all[j] by {
                assert(entries.remaining()[i] != entries.remaining()[j]);
            }
            assert(lists(all, self@));
            lemma_listed_sum(all, self@, by_gain::<C>());
            lemma_listed_sum(all, self@, by_loss::<C>());
            lemma_listed_sum(all, self@, by_amount::<C>());
        }
        let mut acc = C::zero();
        for pair in it: entries
            invariant
                it.seq().unref() == all,
                C::holds(listed_sum_by(all, by_gain::<C>())),
                C::holds(listed_sum_by(all, by_loss::<C>())),
                acc.amount() == listed_sum_by(all.take(it.index()), by_amount::<C>()),
        {
            proof {
                let n = it.index();
                lemma_part_is_bounded(all, n + 1);
                C::held_is_an_interval(
                    listed_sum_by(all, by_loss::<C>()),
                    listed_sum_by(all.take(n + 1), by_amount::<C>()),
                    listed_sum_by(all, by_gain::<C>()),
                );
                assert(all.take(n + 1).drop_last() =~= all.take(n));
                assert(all.take(n + 1).last() == all[n]);
            }
            acc = acc.plus(*pair.1);
        }
        proof {
            assert(all.take(all.len() as int) =~= all);
        }
        acc
    }
}

impl<T: Eq + Hash, C: Count, S: BuildHasher> HashMultiset<T, C, S> {
    /// The count of `item`: the stored count, or zero where there is no entry.
    pub fn multiplicity<Q: ?Sized + Eq + Hash>(&self, item: &Q) -> (r: C) where T: Borrow<Q>
        ensures
            hashes_well::<T, S>() ==> maps_borrowed_key_to_value(self@, item, r) || (
            !contains_borrowed_key(self@, item) && r.amount() == 0),
    {
        match self.items.get(item) {
            Some(c) => *c,
            None => C::zero(),
        }
    }

    /// Adds `multiplicity` to the count of `item`, creating the entry where
    /// there is none, and returns the stored count.
    pub fn insert(&mut self, item: T, multiplicity: C) -> (r: &C)
        requires
            hashes_well::<T, S>(),
            C::holds(amount_of(old(self)@, item) + multiplicity.amount()),
        ensures
            final(self)@ == inserted(old(self)@, item, multiplicity),
            *r == final(self)@[item],
    {
        match self.items.entry(item) {
            Entry::Occupied(mut entry) => {
                let slot = entry.get_mut();
                let total = slot.plus(multiplicity);
                proof {
                    C::amount_is_held(total);
                }
                *slot = total;
                entry.into_mut()
            },
            Entry::Vacant(entry) => {
                proof {
                    C::amount_is_held(multiplicity);
                }
                entry.insert(multiplicity)
            },
        }
    }
}

} // verus!
