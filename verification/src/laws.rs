//! Laws that relate the operations of the multiset to each other.
//!
//! They are stated over the maps that the operations' contracts speak of:
//! `inserted` is what `insert` does to the map, `Map::remove` what
//! `remove_all` does, `amount_of` what `multiplicity` returns, and `total`
//! what `cardinality` returns.

use vstd::prelude::*;
use vstd::std_specs::hash::{
    borrowed_key_removed,
    contains_borrowed_key,
    group_hash_axioms,
    maps_borrowed_key_to_value,
};
use crate::count::Count;
use crate::multiset::{amount_of, inserted};
use crate::sums::{by_amount, gains, lemma_sum_by_remove, losses, total};

verus! {

broadcast use group_hash_axioms;

/// The sum of the amounts of a sequence of counts.
pub open spec fn amounts_sum<C: Count>(ms: Seq<C>) -> int
    decreases ms.len(),
{
    if ms.len() == 0 {
        0
    } else {
        amounts_sum(ms.drop_last()) + ms.last().amount()
    }
}

/// The map after the counts of `ms` are inserted for `x`, one after the other.
pub open spec fn inserted_all<T, C: Count>(m: Map<T, C>, x: T, ms: Seq<C>) -> Map<T, C>
    decreases ms.len(),
{
    if ms.len() == 0 {
        m
    } else {
        inserted(inserted_all(m, x, ms.drop_last()), x, ms.last())
    }
}

/// Two counts with the same amount are the same count.
pub proof fn lemma_amount_determines_count<C: Count>(a: C, b: C)
    requires
        a.amount() == b.amount(),
    ensures
        a == b,
{
    C::amount_is_held(a);
    C::amount_is_held(b);
}

/// After one insertion the amount of the item has grown by the inserted
/// amount, an entry for the item exists, and every other entry is as before.
pub proof fn lemma_insert_adds<T, C: Count>(m: Map<T, C>, x: T, c: C)
    requires
        C::holds(amount_of(m, x) + c.amount()),
    ensures
        inserted(m, x, c).contains_key(x),
        amount_of(inserted(m, x, c), x) == amount_of(m, x) + c.amount(),
        !m.contains_key(x) ==> inserted(m, x, c)[x] == c,
        forall|y: T| y != x ==> m.contains_key(y) == inserted(m, x, c).contains_key(y),
        forall|y: T| y != x && m.contains_key(y) ==> inserted(m, x, c)[y] == m[y],
{
    C::of_amount_is_exact(amount_of(m, x) + c.amount());
    C::amount_is_held(c);
}

/// Two insertions give the same multiset in either order, provided that the
/// type holds the amounts reached on the way.
pub proof fn lemma_insert_order_is_irrelevant<T, C: Count>(m: Map<T, C>, x: T, a: C, y: T, b: C)
    requires
        C::holds(amount_of(m, x) + a.amount()),
        C::holds(amount_of(m, y) + b.amount()),
    ensures
        inserted(inserted(m, x, a), y, b) == inserted(inserted(m, y, b), x, a),
{
    lemma_insert_adds(m, x, a);
    lemma_insert_adds(m, y, b);
    assert(inserted(inserted(m, x, a), y, b) =~= inserted(inserted(m, y, b), x, a));
}

/// After any number of insertions of one item, its amount has grown by the
/// sum of the inserted amounts, provided that the type holds the amount
/// reached after each of them.
pub proof fn lemma_inserts_add_up<T, C: Count>(m: Map<T, C>, x: T, ms: Seq<C>)
    requires
        forall|n: int| 1 <= n <= ms.len() ==> C::holds(amount_of(m, x) + #[trigger] amounts_sum(
            ms.take(n),
        )),
    ensures
        amount_of(inserted_all(m, x, ms), x) == amount_of(m, x) + amounts_sum(ms),
        ms.len() > 0 ==> inserted_all(m, x, ms).contains_key(x),
    decreases ms.len(),
{
    if ms.len() > 0 {
        let rest = ms.drop_last();
        assert forall|n: int| 1 <= n <= rest.len() implies C::holds(
            amount_of(m, x) + #[trigger] amounts_sum(rest.take(n)),
        ) by {
            assert(rest.take(n) =~= ms.take(n));
        }
        lemma_inserts_add_up(m, x, rest);
        assert(ms.take(ms.len() as int) =~= ms);
        assert(C::holds(amount_of(m, x) + amounts_sum(ms.take(ms.len() as int))));
        lemma_insert_adds(inserted_all(m, x, rest), x, ms.last());
    }
}

/// An item without an entry has the amount zero: in the empty multiset every
/// item has.
pub proof fn lemma_absent_amount_is_zero<T, C: Count>(m: Map<T, C>, x: T)
    ensures
        !m.contains_key(x) ==> amount_of(m, x) == 0,
        amount_of(Map::<T, C>::empty(), x) == 0,
{
}

/// What `multiplicity` promises of an item looked up by its own type is that
/// the result's amount is the amount of the item.
pub proof fn lemma_multiplicity_is_amount<T, C: Count>(m: Map<T, C>, x: T, r: C)
    ensures
        (maps_borrowed_key_to_value(m, &x, r) || (!contains_borrowed_key(m, &x) && r.amount() == 0))
            <==> r.amount() == amount_of(m, x),
{
    if m.contains_key(x) && r.amount() == m[x].amount() {
        lemma_amount_determines_count(r, m[x]);
    }
}

/// What `get` promises of an item looked up by its own type: the stored
/// count where there is an entry, and nothing where there is none.
pub proof fn lemma_get_is_lookup<T, C>(m: Map<T, C>, x: T, r: Option<C>)
    ensures
        (match r {
            Some(c) => maps_borrowed_key_to_value(m, &x, c),
            None => !contains_borrowed_key(m, &x),
        }) <==> r == (if m.contains_key(x) {
            Some(m[x])
        } else {
            None
        }),
{
}

/// What `remove_all` promises of an item given by its own type: the entry is
/// gone afterwards and its count is returned; without an entry nothing is
/// returned and the multiset is unchanged.
pub proof fn lemma_remove_all_removes<T, C>(before: Map<T, C>, after: Map<T, C>, x: T, r: Option<C>)
    requires
        borrowed_key_removed(before, after, &x),
        match r {
            Some(c) => maps_borrowed_key_to_value(before, &x, c),
            None => !contains_borrowed_key(before, &x),
        },
    ensures
        after == before.remove(x),
        !after.contains_key(x),
        before.contains_key(x) ==> r == Some(before[x]),
        !before.contains_key(x) ==> r.is_none() && after == before,
{
    if !before.contains_key(x) {
        assert(before.remove(x) =~= before);
    }
}

/// The counts of the empty multiset sum to zero.
pub proof fn lemma_empty_total_is_zero<T, C: Count>()
    ensures
        total(Map::<T, C>::empty()) == 0,
        gains(Map::<T, C>::empty()) == 0,
        losses(Map::<T, C>::empty()) == 0,
{
}

/// The sum of all amounts lies between the losses and the gains, and where
/// no amount is negative, the gains are the sum of all amounts and the
/// losses are zero.
pub proof fn lemma_total_is_bounded<T, C: Count>(m: Map<T, C>)
    requires
        m.dom().finite(),
    ensures
        losses(m) <= total(m) <= gains(m),
        losses(m) <= 0 <= gains(m),
        (forall|k: T| m.contains_key(k) ==> #[trigger] m[k].amount() >= 0) ==> gains(m) == total(m)
            && losses(m) == 0,
    decreases m.dom().len(),
{
    if m.dom().len() > 0 {
        let k = m.dom().choose();
        lemma_total_is_bounded(m.remove(k));
        if forall|k: T| m.contains_key(k) ==> #[trigger] m[k].amount() >= 0 {
            assert(m[k].amount() >= 0);
            assert forall|j: T| m.remove(k).contains_key(j) implies #[trigger] m.remove(
                k,
            )[j].amount() >= 0 by {
                assert(m[j].amount() >= 0);
            }
        }
    }
}

/// One insertion raises the sum of all counts by the inserted amount.
pub proof fn lemma_insert_raises_total<T, C: Count>(m: Map<T, C>, x: T, c: C)
    requires
        m.dom().finite(),
        C::holds(amount_of(m, x) + c.amount()),
    ensures
        total(inserted(m, x, c)) == total(m) + c.amount(),
{
    let after = inserted(m, x, c);
    C::of_amount_is_exact(amount_of(m, x) + c.amount());
    lemma_sum_by_remove(after, by_amount::<C>(), x);
    assert(after.remove(x) =~= m.remove(x));
    if m.contains_key(x) {
        lemma_sum_by_remove(m, by_amount::<C>(), x);
    } else {
        assert(m.remove(x) =~= m);
    }
}

/// The number of entries counts the distinct items, whatever their counts:
/// an insertion for a new item adds one entry even where the count is zero,
/// and an insertion for a stored item adds none.
pub proof fn lemma_len_counts_items<T, C: Count>(m: Map<T, C>, x: T, c: C)
    requires
        m.dom().finite(),
    ensures
        inserted(m, x, c).dom() == m.dom().insert(x),
        inserted(m, x, c).len() == if m.contains_key(x) {
            m.len()
        } else {
            m.len() + 1
        },
        m.remove(x).len() == if m.contains_key(x) {
            m.len() - 1
        } else {
            m.len() as int
        },
{
    assert(inserted(m, x, c).dom() =~= m.dom().insert(x));
    assert(m.remove(x).dom() =~= m.dom().remove(x));
}

/// Removing an entry and inserting what was removed restores the multiset.
pub proof fn lemma_remove_then_insert_restores<T, C: Count>(m: Map<T, C>, x: T)
    requires
        m.contains_key(x),
    ensures
        inserted(m.remove(x), x, m[x]) == m,
{
    C::amount_is_held(m[x]);
    assert(inserted(m.remove(x), x, m[x]) =~= m);
}

/// What `retain` promises of a predicate that decides by `keeps` pins the
/// result down: the entries that `keeps` accepts, with their counts.
pub proof fn lemma_retain_is_a_filter<T, C>(
    before: Map<T, C>,
    after: Map<T, C>,
    keeps: spec_fn(T, C) -> bool,
)
    requires
        forall|k: T| #[trigger]
            after.contains_key(k) ==> before.contains_key(k) && after[k] == before[k] && keeps(
                k,
                before[k],
            ),
        forall|k: T|
            before.contains_key(k) && !(#[trigger] after.contains_key(k)) ==> !keeps(k, before[k]),
    ensures
        after == before.restrict(Set::new(|k: T| before.contains_key(k) && keeps(k, before[k]))),
{
    let kept = Set::new(|k: T| before.contains_key(k) && keeps(k, before[k]));
    assert(after =~= before.restrict(kept));
}

} // verus!
