//! Sums over the counts of a finite map, and the lemmas about them.

use vstd::prelude::*;
use crate::count::Count;

verus! {

/// The sum of `f` over the counts stored in `m`, one term for each entry.
pub open spec fn sum_by<T, C>(m: Map<T, C>, f: spec_fn(C) -> int) -> int
    decreases m.dom().len(),
    when m.dom().finite()
{
    if m.dom().len() == 0 {
        0
    } else {
        let k = m.dom().choose();
        f(m[k]) + sum_by(m.remove(k), f)
    }
}

/// The sum of `f` over the counts listed in `s`, one term for each position.
pub open spec fn listed_sum_by<T, C>(s: Seq<(T, C)>, f: spec_fn(C) -> int) -> int
    decreases s.len(),
{
    if s.len() == 0 {
        0
    } else {
        listed_sum_by(s.drop_last(), f) + f(s.last().1)
    }
}

/// Weighs a count by its amount.
pub open spec fn by_amount<C: Count>() -> spec_fn(C) -> int {
    |c: C| c.amount()
}

/// Weighs a count by its amount where that is positive, else by zero.
pub open spec fn by_gain<C: Count>() -> spec_fn(C) -> int {
    |c: C|
        if c.amount() > 0 {
            c.amount()
        } else {
            0
        }
}

/// Weighs a count by its amount where that is negative, else by zero.
pub open spec fn by_loss<C: Count>() -> spec_fn(C) -> int {
    |c: C|
        if c.amount() < 0 {
            c.amount()
        } else {
            0
        }
}

/// The sum of all stored amounts.
pub open spec fn total<T, C: Count>(m: Map<T, C>) -> int {
    sum_by(m, by_amount::<C>())
}

/// The sum of the positive stored amounts: the largest sum of any part of `m`.
pub open spec fn gains<T, C: Count>(m: Map<T, C>) -> int {
    sum_by(m, by_gain::<C>())
}

/// The sum of the negative stored amounts: the smallest sum of any part of `m`.
pub open spec fn losses<T, C: Count>(m: Map<T, C>) -> int {
    sum_by(m, by_loss::<C>())
}

/// Whether `s` lists every entry of `m` exactly once.
pub open spec fn lists<T, C>(s: Seq<(T, C)>, m: Map<T, C>) -> bool {
    &&& m.dom().finite()
    &&& s.len() == m.dom().len()
    &&& s.no_duplicates()
    &&& forall|i: int| 0 <= i < s.len() ==> m.contains_key(#[trigger] s[i].0) && m[s[i].0] == s[i].1
}

/// Whether `counts` holds the count of every entry of `m`, one for each entry.
pub open spec fn lists_counts<T, C>(counts: Seq<C>, m: Map<T, C>) -> bool {
    exists|s: Seq<(T, C)>| #[trigger] lists(s, m) && counts == Seq::new(s.len(), |i: int| s[i].1)
}

/// A sum over a map can be taken apart at any entry.
pub proof fn lemma_sum_by_remove<T, C>(m: Map<T, C>, f: spec_fn(C) -> int, k: T)
    requires
        m.dom().finite(),
        m.contains_key(k),
    ensures
        sum_by(m, f) == f(m[k]) + sum_by(m.remove(k), f),
    decreases m.dom().len(),
{
    let c = m.dom().choose();
    if c != k {
        lemma_sum_by_remove(m.remove(c), f, k);
        lemma_sum_by_remove(m.remove(k), f, c);
        assert(m.remove(c).remove(k) =~= m.remove(k).remove(c));
    }
}

/// A sum over a map equals the sum over any listing of its entries.
pub proof fn lemma_listed_sum<T, C>(s: Seq<(T, C)>, m: Map<T, C>, f: spec_fn(C) -> int)
    requires
        lists(s, m),
    ensures
        listed_sum_by(s, f) == sum_by(m, f),
    decreases s.len(),
{
    if s.len() > 0 {
        let k = s.last().0;
        let rest = s.drop_last();
        let less = m.remove(k);
        assert(m.contains_key(s[s.len() - 1].0));
        assert forall|i: int| 0 <= i < rest.len() implies less.contains_key(#[trigger] rest[i].0)
            && less[rest[i].0] == rest[i].1 by {
            assert(rest[i] == s[i]);
            assert(m.contains_key(s[i].0));
            if s[i].0 == k {
                assert(s[i] == s[s.len() - 1]);
            }
        }
        lemma_listed_sum(rest, less, f);
        lemma_sum_by_remove(m, f, k);
    }
}

/// The sum over a part of a listing lies between the losses and the gains
/// of the whole listing.
pub proof fn lemma_part_is_bounded<T, C: Count>(s: Seq<(T, C)>, n: int)
    requires
        0 <= n <= s.len(),
    ensures
        listed_sum_by(s, by_loss::<C>()) <= listed_sum_by(s.take(n), by_amount::<C>()),
        listed_sum_by(s.take(n), by_amount::<C>()) <= listed_sum_by(s, by_gain::<C>()),
        listed_sum_by(s, by_loss::<C>()) <= 0 <= listed_sum_by(s, by_gain::<C>()),
    decreases s.len(),
{
    if s.len() > 0 {
        let rest = s.drop_last();
        if n == s.len() {
            assert(s.take(n) =~= s);
            lemma_part_is_bounded(rest, n - 1);
            assert(rest.take(n - 1) =~= rest);
        } else {
            lemma_part_is_bounded(rest, n);
            assert(s.take(n) =~= rest.take(n));
        }
    } else {
        assert(s.take(n) =~= s);
    }
}

} // verus!
