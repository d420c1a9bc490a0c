//! Histories that keep their newest entries.
use vstd::prelude::*;

verus! {

/// The last `n` entries, or all of them where there are fewer.
pub open spec fn last_of<T>(s: Seq<T>, n: nat) -> Seq<T> {
    if s.len() <= n {
        s
    } else {
        s.skip(s.len() - n)
    }
}

/// The first `n` entries, or all of them where there are fewer.
pub open spec fn first_of<T>(s: Seq<T>, n: nat) -> Seq<T> {
    if s.len() <= n {
        s
    } else {
        s.take(n as int)
    }
}

/// Drops the oldest entries beyond the last `n`.
pub fn keep_last<T>(v: &mut Vec<T>, n: usize)
    ensures
        final(v)@ == last_of(old(v)@, n as nat),
{
    let len = v.len();
    if len > n {
        let tail = v.split_off(len - n);
        assert(tail@ =~= old(v)@.skip(len - n));
        *v = tail;
    }
}

/// Adds entries at the end and drops the oldest beyond the last `n`.
pub fn extend_keeping<T>(v: &mut Vec<T>, added: Vec<T>, n: usize)
    ensures
        final(v)@ == last_of(old(v)@ + added@, n as nat),
{
    let mut rest = added;
    v.append(&mut rest);
    keep_last(v, n);
}

/// Bounding a history twice is bounding it once: what was dropped before does
/// not count.
pub proof fn law_bounded_extension<T>(a: Seq<T>, b: Seq<T>, n: nat)
    ensures
        last_of(last_of(a, n) + b, n) == last_of(a + b, n),
{
    assert(last_of(last_of(a, n) + b, n) =~= last_of(a + b, n));
}

/// What is dropped from a part is dropped from the whole.
pub proof fn lemma_bounded_part<T>(a: Seq<T>, b: Seq<T>, n: nat)
    ensures
        last_of(a + last_of(b, n), n) == last_of(a + b, n),
{
    assert(last_of(a + last_of(b, n), n) =~= last_of(a + b, n));
}

} // verus!
