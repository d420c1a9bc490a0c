//! Sorting, largest first, with equals left in their order.
use crate::model::AgentSession;
use vstd::prelude::*;

verus! {

/// What has a number to sort it by.
pub trait Ranked {
    /// The number.
    spec fn rank(&self) -> u64;

    /// The number.
    fn rank_of(&self) -> (r: u64)
        ensures
            r == self.rank(),
    ;
}

impl Ranked for AgentSession {
    /// When the session started.
    open spec fn rank(&self) -> u64 {
        self.started_at
    }

    fn rank_of(&self) -> (r: u64) {
        self.started_at
    }
}

/// Whether no entry has a larger number than one before it.
pub open spec fn is_descending<T: Ranked>(s: Seq<T>) -> bool {
    forall|i: int, j: int|
        0 <= i < j < s.len() ==> (#[trigger] s[i]).rank() >= (#[trigger] s[j]).rank()
}

/// The entries with the number `k`.
pub open spec fn with_rank<T: Ranked>(s: Seq<T>, k: u64) -> Seq<T> {
    s.filter(|x: T| x.rank() == k)
}

/// Whether `sorted` holds the entries of `s`, largest number first, and those
/// with the same number in the order of `s`.
pub open spec fn is_stable_sorting<T: Ranked>(s: Seq<T>, sorted: Seq<T>) -> bool {
    &&& is_descending(sorted)
    &&& forall|k: u64| #[trigger] with_rank(sorted, k) == with_rank(s, k)
}

proof fn lemma_none_with_rank<T: Ranked>(s: Seq<T>, k: u64)
    requires
        forall|i: int| 0 <= i < s.len() ==> (#[trigger] s[i]).rank() != k,
    ensures
        with_rank(s, k) == Seq::<T>::empty(),
    decreases s.len(),
{
    reveal(Seq::filter);
    if s.len() > 0 {
        assert(s.last() == s[s.len() - 1]);
        assert forall|i: int| 0 <= i < s.drop_last().len() implies (
        #[trigger] s.drop_last()[i]).rank() != k by {
            assert(s[i].rank() != k);
        }
        lemma_none_with_rank(s.drop_last(), k);
    }
}

proof fn lemma_insertion<T: Ranked>(s: Seq<T>, p: int, x: T, k: u64)
    requires
        0 <= p <= s.len(),
        forall|i: int| p <= i < s.len() ==> (#[trigger] s[i]).rank() < x.rank(),
    ensures
        with_rank(s.insert(p, x), k) == with_rank(s.push(x), k),
{
    let f = |y: T| y.rank() == k;
    let a = s.take(p);
    let b = s.skip(p);
    assert(s.insert(p, x) =~= (a + seq![x]) + b);
    assert(s.push(x) =~= a + (b + seq![x]));
    Seq::filter_distributes_over_add(a + seq![x], b, f);
    Seq::filter_distributes_over_add(a, seq![x], f);
    Seq::filter_distributes_over_add(a, b + seq![x], f);
    Seq::filter_distributes_over_add(b, seq![x], f);
    if x.rank() == k {
        assert forall|i: int| 0 <= i < b.len() implies (#[trigger] b[i]).rank() != k by {
            assert(s[i + p].rank() < x.rank());
        }
        lemma_none_with_rank(b, k);
        assert(with_rank(s.insert(p, x), k) =~= with_rank(s.push(x), k));
    } else {
        assert forall|i: int| 0 <= i < seq![x].len() implies (#[trigger] seq![x][i]).rank()
            != k by {}
        lemma_none_with_rank(seq![x], k);
        assert(with_rank(s.insert(p, x), k) =~= with_rank(s.push(x), k));
    }
}

proof fn lemma_push_with_rank<T: Ranked>(a: Seq<T>, b: Seq<T>, x: T, k: u64)
    requires
        with_rank(a, k) == with_rank(b, k),
    ensures
        with_rank(a.push(x), k) == with_rank(b.push(x), k),
{
    let f = |y: T| y.rank() == k;
    assert(a.push(x) =~= a + seq![x]);
    assert(b.push(x) =~= b + seq![x]);
    Seq::filter_distributes_over_add(a, seq![x], f);
    Seq::filter_distributes_over_add(b, seq![x], f);
}

/// Sorts the entries, largest number first.
pub fn sort_descending<T: Ranked>(v: Vec<T>) -> (r: Vec<T>)
    ensures
        is_stable_sorting(v@, r@),
{
    let ghost all = v@;
    let mut rest = v;
    let mut out: Vec<T> = Vec::new();
    let ghost mut n: int = 0;
    assert(all.skip(0) =~= all);
    assert(all.take(0) =~= Seq::empty());
    assert(out@ =~= Seq::empty());
    while rest.len() > 0
        invariant
            0 <= n <= all.len(),
            rest@ == all.skip(n),
            is_descending(out@),
            forall|k: u64| #[trigger] with_rank(out@, k) == with_rank(all.take(n), k),
        decreases rest@.len(),
    {
        let x = rest.remove(0);
        assert(x == all[n]);
        assert(rest@ =~= all.skip(n + 1));
        let key = x.rank_of();
        let mut p: usize = 0;
        while p < out.len() && out[p].rank_of() >= key
            invariant
                p <= out@.len(),
                forall|i: int| 0 <= i < p ==> (#[trigger] out@[i]).rank() >= key,
            decreases out@.len() - p,
        {
            p += 1;
        }
        let ghost before = out@;
        out.insert(p, x);
        proof {
            assert forall|i: int| p <= i < before.len() implies (#[trigger] before[i]).rank()
                < x.rank() by {
                assert(before[p as int].rank() < key);
            }
            assert forall|i: int, j: int| 0 <= i < j < out@.len() implies (
            #[trigger] out@[i]).rank() >= (#[trigger] out@[j]).rank() by {
                let a = if i < p {
                    i
                } else {
                    i - 1
                };
                let b = if j < p {
                    j
                } else {
                    j - 1
                };
                if i != p && j != p {
                    assert(before[a].rank() >= before[b].rank());
                }
            }
            assert forall|k: u64| #[trigger] with_rank(out@, k) == with_rank(
                all.take(n + 1),
                k,
            ) by {
                lemma_insertion(before, p as int, x, k);
                lemma_push_with_rank(before, all.take(n), x, k);
                assert(all.take(n + 1) =~= all.take(n).push(x));
            }
            n = n + 1;
        }
    }
    assert(all.take(n) =~= all);
    out
}

proof fn lemma_count_with_rank<T: Ranked>(s: Seq<T>, x: T)
    ensures
        with_rank(s, x.rank()).to_multiset().count(x) == s.to_multiset().count(x),
    decreases s.len(),
{
    broadcast use vstd::multiset::group_multiset_axioms;
    broadcast use vstd::seq_lib::group_to_multiset_ensures;

    reveal(Seq::filter);
    if s.len() > 0 {
        let most = s.drop_last();
        lemma_count_with_rank(most, x);
        assert(s =~= most.push(s.last()));
        if s.last().rank() == x.rank() {
            assert(with_rank(s, x.rank()) =~= with_rank(most, x.rank()).push(s.last()));
        } else {
            assert(with_rank(s, x.rank()) =~= with_rank(most, x.rank()));
            assert(s.last() != x);
        }
    }
}

/// Sorting keeps the entries: whatever stands in one stands in the other, and
/// as often.
pub proof fn law_sorting_keeps_entries<T: Ranked>(s: Seq<T>, sorted: Seq<T>)
    requires
        is_stable_sorting(s, sorted),
    ensures
        s.to_multiset() == sorted.to_multiset(),
        s.len() == sorted.len(),
{
    broadcast use vstd::seq_lib::group_to_multiset_ensures;

    assert forall|x: T| #[trigger] s.to_multiset().count(x) == sorted.to_multiset().count(x) by {
        lemma_count_with_rank(s, x);
        lemma_count_with_rank(sorted, x);
        assert(with_rank(sorted, x.rank()) == with_rank(s, x.rank()));
    }
    assert(s.to_multiset() =~= sorted.to_multiset());
    vstd::seq_lib::to_multiset_len(s);
    vstd::seq_lib::to_multiset_len(sorted);
}

} // verus!
