//! What is known of the sessions that are shown, by their identifiers.
use crate::cache::no_cache;
use crate::cache::resumed;
use crate::cache::CacheView;
use crate::cache::SessionCache;
use crate::text::contains_string;
use crate::text::strs;
use crate::text::text_eq;
use vstd::prelude::*;

verus! {

/// Whether no identifier occurs twice.
spec fn distinct(entries: Seq<(String, SessionCache)>) -> bool {
    forall|i: int, j: int|
        0 <= i < j < entries.len() ==> (#[trigger] entries[i]).0@ != (#[trigger] entries[j]).0@
}

/// What the entries say of each identifier.
spec fn table(entries: Seq<(String, SessionCache)>) -> Map<Seq<char>, CacheView>
    decreases entries.len(),
{
    if entries.len() == 0 {
        Map::empty()
    } else {
        table(entries.drop_last()).insert(entries.last().0@, entries.last().1@)
    }
}

proof fn lemma_table(entries: Seq<(String, SessionCache)>)
    requires
        distinct(entries),
    ensures
        forall|i: int|
            0 <= i < entries.len() ==> table(entries).contains_key((#[trigger] entries[i]).0@)
                && table(entries)[entries[i].0@] == entries[i].1@,
        forall|id: Seq<char>| #[trigger]
            table(entries).contains_key(id) ==> exists|i: int|
                0 <= i < entries.len() && (#[trigger] entries[i]).0@ == id,
    decreases entries.len(),
{
    if entries.len() > 0 {
        let most = entries.drop_last();
        assert(distinct(most)) by {
            assert forall|i: int, j: int| 0 <= i < j < most.len() implies (#[trigger] most[i]).0@
                != (#[trigger] most[j]).0@ by {
                assert(entries[i].0@ != entries[j].0@);
            }
        }
        lemma_table(most);
        let last = entries.len() - 1;
        assert forall|i: int| 0 <= i < entries.len() implies table(entries).contains_key(
            (#[trigger] entries[i]).0@,
        ) && table(entries)[entries[i].0@] == entries[i].1@ by {
            if i < last {
                assert(most[i] == entries[i]);
                assert(entries[i].0@ != entries[last].0@);
            }
        }
        assert forall|id: Seq<char>| #[trigger] table(entries).contains_key(id) implies exists|
            i: int,
        |
            0 <= i < entries.len() && (#[trigger] entries[i]).0@ == id by {
            if id == entries.last().0@ {
                assert(entries[last].0@ == id);
            } else {
                assert(table(most).contains_key(id));
                let k = choose|k: int| 0 <= k < most.len() && (#[trigger] most[k]).0@ == id;
                assert(entries[k].0@ == id);
            }
        }
    }
}

proof fn lemma_table_without(entries: Seq<(String, SessionCache)>, k: int)
    requires
        distinct(entries),
        0 <= k < entries.len(),
    ensures
        distinct(entries.remove(k)),
        table(entries.remove(k)) == table(entries).remove(entries[k].0@),
{
    let fewer = entries.remove(k);
    let id = entries[k].0@;
    assert forall|i: int, j: int| 0 <= i < j < fewer.len() implies (#[trigger] fewer[i]).0@ != (
    #[trigger] fewer[j]).0@ by {
        let a = if i < k {
            i
        } else {
            i + 1
        };
        let b = if j < k {
            j
        } else {
            j + 1
        };
        assert(entries[a].0@ != entries[b].0@);
    }
    lemma_table(entries);
    lemma_table(fewer);
    assert forall|x: Seq<char>| table(fewer).contains_key(x) <==> #[trigger] table(entries).remove(
        id,
    ).contains_key(x) by {
        if table(fewer).contains_key(x) {
            let i = choose|i: int| 0 <= i < fewer.len() && (#[trigger] fewer[i]).0@ == x;
            let a = if i < k {
                i
            } else {
                i + 1
            };
            assert(entries[a] == fewer[i]);
            if a < k {
                assert(entries[a].0@ != entries[k].0@);
            } else {
                assert(entries[k].0@ != entries[a].0@);
            }
        }
        if table(entries).contains_key(x) && x != id {
            let a = choose|a: int| 0 <= a < entries.len() && (#[trigger] entries[a]).0@ == x;
            let i = if a < k {
                a
            } else {
                a - 1
            };
            assert(fewer[i] == entries[a]);
        }
    }
    assert forall|x: Seq<char>| #[trigger] table(fewer).contains_key(x) implies table(fewer)[x]
        == table(entries).remove(id)[x] by {
        let i = choose|i: int| 0 <= i < fewer.len() && (#[trigger] fewer[i]).0@ == x;
        let a = if i < k {
            i
        } else {
            i + 1
        };
        assert(entries[a] == fewer[i]);
        assert(table(entries).remove(id).contains_key(x));
    }
    assert(table(fewer) =~= table(entries).remove(id));
}

/// What is known of sessions, by their identifiers.
pub struct SessionCaches {
    entries: Vec<(String, SessionCache)>,
}

impl View for SessionCaches {
    type V = Map<Seq<char>, CacheView>;

    closed spec fn view(&self) -> Map<Seq<char>, CacheView> {
        table(self.entries@)
    }
}

/// What is known of a session: nothing, where it was not seen before.
pub open spec fn known(caches: Map<Seq<char>, CacheView>, id: Seq<char>) -> CacheView {
    if caches.contains_key(id) {
        caches[id]
    } else {
        no_cache()
    }
}

/// What is known of the sessions whose identifiers are among `ids`.
pub open spec fn retained(
    caches: Map<Seq<char>, CacheView>,
    ids: Seq<Seq<char>>,
) -> Map<Seq<char>, CacheView> {
    Map::new(
        |id: Seq<char>| caches.contains_key(id) && ids.contains(id),
        |id: Seq<char>| caches[id],
    )
}

impl SessionCaches {
    #[verifier::type_invariant]
    spec fn wf(self) -> bool {
        distinct(self.entries@)
    }

    /// Nothing is known of any session.
    pub fn new() -> (r: SessionCaches)
        ensures
            r@ == Map::<Seq<char>, CacheView>::empty(),
    {
        SessionCaches { entries: Vec::new() }
    }

    /// Where the entry of a session stands, or the number of entries.
    fn find(&self, id: &str) -> (r: usize)
        ensures
            r <= self.entries@.len(),
            r < self.entries@.len() ==> self.entries@[r as int].0@ == id@,
            r == self.entries@.len() ==> !self@.contains_key(id@),
            r < self.entries@.len() ==> self@.contains_key(id@) && self@[id@]
                == self.entries@[r as int].1@,
    {
        proof {
            use_type_invariant(&*self);
            lemma_table(self.entries@);
        }
        let mut i: usize = 0;
        while i < self.entries.len()
            invariant
                i <= self.entries@.len(),
                forall|k: int| 0 <= k < i ==> (#[trigger] self.entries@[k]).0@ != id@,
                forall|k: int|
                    0 <= k < self.entries@.len() ==> table(self.entries@).contains_key(
                        (#[trigger] self.entries@[k]).0@,
                    ) && table(self.entries@)[self.entries@[k].0@] == self.entries@[k].1@,
            decreases self.entries@.len() - i,
        {
            if text_eq(self.entries[i].0.as_str(), id) {
                return i;
            }
            i += 1;
        }
        i
    }

    /// Where to go on reading the given file of a session, of `len` bytes.
    pub fn resume_offset(&self, id: &str, identity: (u64, u64), len: u64) -> (r: u64)
        ensures
            r == resumed(known(self@, id@), identity, len).offset,
    {
        let i = self.find(id);
        if i < self.entries.len() {
            self.entries[i].1.resume_offset(identity, len)
        } else {
            0
        }
    }

    /// Takes out what is known of a session.
    pub fn take(&mut self, id: &str) -> (r: SessionCache)
        ensures
            r@ == known(old(self)@, id@),
            final(self)@ == old(self)@.remove(id@),
    {
        let i = self.find(id);
        proof {
            use_type_invariant(&*self);
        }
        let ghost before = self.entries@;
        let mut entries: Vec<(String, SessionCache)> = Vec::new();
        std::mem::swap(&mut entries, &mut self.entries);
        if i < entries.len() {
            proof {
                lemma_table_without(before, i as int);
            }
            let (_, cache) = entries.remove(i);
            self.entries = entries;
            cache
        } else {
            self.entries = entries;
            assert(self@ =~= old(self)@.remove(id@));
            SessionCache::empty()
        }
    }

    /// Puts in what is known of a session.
    pub fn put(&mut self, id: &str, cache: SessionCache)
        ensures
            final(self)@ == old(self)@.insert(id@, cache@),
    {
        let _ = self.take(id);
        proof {
            use_type_invariant(&*self);
        }
        let ghost before = self.entries@;
        proof {
            lemma_table(before);
        }
        let mut entries: Vec<(String, SessionCache)> = Vec::new();
        std::mem::swap(&mut entries, &mut self.entries);
        entries.push((id.to_owned(), cache));
        assert forall|i: int, j: int| 0 <= i < j < entries@.len() implies (#[trigger] entries@[i]).0@
            != (#[trigger] entries@[j]).0@ by {
            assert(before[i].0@ != id@) by {
                assert(table(before).contains_key(before[i].0@));
            }
            if j < before.len() {
                assert(before[i].0@ != before[j].0@);
            }
        }
        assert(entries@.drop_last() =~= before);
        self.entries = entries;
        assert(self@ =~= old(self)@.insert(id@, cache@));
    }

    /// Forgets the sessions whose identifiers are not among `ids`.
    pub fn retain(&mut self, ids: &Vec<String>)
        ensures
            final(self)@ == retained(old(self)@, strs(ids@)),
    {
        proof {
            use_type_invariant(&*self);
            lemma_table(self.entries@);
        }
        let ghost start = self.entries@;
        let ghost wanted = strs(ids@);
        let mut entries: Vec<(String, SessionCache)> = Vec::new();
        std::mem::swap(&mut entries, &mut self.entries);
        let mut kept = SessionCaches::new();
        while entries.len() > 0
            invariant
                entries@.len() <= start.len(),
                entries@ == start.take(entries@.len() as int),
                distinct(start),
                wanted == strs(ids@),
                forall|id: Seq<char>| #[trigger]
                    kept@.contains_key(id) ==> wanted.contains(id) && exists|k: int|
                        entries@.len() <= k < start.len() && (#[trigger] start[k]).0@ == id,
                forall|k: int|
                    entries@.len() <= k < start.len() && wanted.contains((#[trigger] start[k]).0@)
                        ==> kept@.contains_key(start[k].0@) && kept@[start[k].0@] == start[k].1@,
            decreases entries@.len(),
        {
            let ghost n = entries@.len() - 1;
            let ghost before = kept@;
            if let Some((id, cache)) = entries.pop() {
                assert(entries@ =~= start.take(n));
                assert(start[n].0@ == id@ && start[n].1@ == cache@);
                if contains_string(ids, id.as_str()) {
                    kept.put(id.as_str(), cache);
                    assert forall|x: Seq<char>| #[trigger] kept@.contains_key(x) implies
                        wanted.contains(x) && exists|k: int|
                        n <= k < start.len() && (#[trigger] start[k]).0@ == x by {
                        if x != id@ {
                            assert(before.contains_key(x));
                            let k = choose|k: int|
                                n + 1 <= k < start.len() && (#[trigger] start[k]).0@ == x;
                            assert(start[k].0@ == x);
                        }
                    }
                    assert forall|k: int|
                        n <= k < start.len() && wanted.contains(
                            (#[trigger] start[k]).0@,
                        ) implies kept@.contains_key(start[k].0@) && kept@[start[k].0@]
                        == start[k].1@ by {
                        if k > n {
                            assert(start[n].0@ != start[k].0@);
                        }
                    }
                }
            }
        }
        assert(kept@ =~= retained(table(start), wanted)) by {
            assert forall|x: Seq<char>| #[trigger] retained(table(start), wanted).contains_key(
                x,
            ) implies kept@.contains_key(x) by {
                assert(table(start).contains_key(x));
                let k = choose|k: int| 0 <= k < start.len() && (#[trigger] start[k]).0@ == x;
                assert(kept@.contains_key(start[k].0@));
            }
            assert forall|x: Seq<char>| #[trigger] kept@.contains_key(x) implies retained(
                table(start),
                wanted,
            ).contains_key(x) && kept@[x] == table(start)[x] by {
                let k = choose|k: int| 0 <= k < start.len() && (#[trigger] start[k]).0@ == x;
                assert(table(start).contains_key(start[k].0@));
            }
        }
        *self = kept;
    }
}

} // verus!
