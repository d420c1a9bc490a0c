//! What a look at a log adds to what is known of its session, whatever the
//! format of the log.
use crate::activity::DeltaView;
use crate::activity::no_delta;
use crate::cache::CacheView;
use crate::cache::LogFile;
use crate::cache::is_bounded;
use crate::cache::lemma_nothing_is_merged;
use crate::cache::merge_fits;
use crate::cache::merged;
use crate::cache::no_cache;
use crate::json::JsonTree;
use crate::jsonl::lemma_log_bytes;
use crate::jsonl::lemma_unread_log_is_empty;
use crate::jsonl::log_bytes;
use crate::jsonl::log_documents;
use crate::policy::HostPolicy;
use crate::tailing::LogFormat;
use crate::tailing::countable;
use crate::tailing::log_delta;
use crate::tailing::look_fits;
use crate::tailing::looked;
use crate::tailing::run;
use crate::tailing::run_fits;
use vstd::prelude::*;

verus! {

/// Whether a log is given up to its end.
pub open spec fn is_given(log: LogFile) -> bool {
    log.start + log.bytes@.len() == log.len
}

/// What still counts of what was known: all of it where the log is the file
/// that was read and holds all that was read of it, else nothing.
pub open spec fn standing(c: CacheView, log: LogFile) -> CacheView {
    if c.identity == log.identity && c.offset <= log.len {
        c
    } else {
        no_cache()
    }
}

/// The events that a look at the log finds: those that stand behind the place
/// up to which it was read.
pub open spec fn new_events(c: CacheView, log: LogFile) -> Seq<JsonTree> {
    log_documents(log.bytes@.skip(standing(c, log).offset - log.start))
}

/// The sum of what each of the events counts.
pub open spec fn total(events: Seq<JsonTree>, count: spec_fn(JsonTree) -> int) -> int
    decreases events.len(),
{
    if events.len() == 0 {
        0
    } else {
        total(events.drop_last(), count) + count(events.last())
    }
}

/// What the events tell, one after another.
pub open spec fn told<T>(events: Seq<JsonTree>, tells: spec_fn(JsonTree) -> Seq<T>) -> Seq<T>
    decreases events.len(),
{
    if events.len() == 0 {
        Seq::empty()
    } else {
        told(events.drop_last(), tells) + tells(events.last())
    }
}

/// Whether `value` is what the last of the events that say something says, or
/// `before` where none of them does.
pub open spec fn is_last_said<T>(
    events: Seq<JsonTree>,
    says: spec_fn(JsonTree) -> Option<T>,
    before: T,
    value: T,
) -> bool {
    ||| value == before && forall|k: int|
        0 <= k < events.len() ==> says(#[trigger] events[k]) is None
    ||| exists|i: int|
        {
            &&& 0 <= i < events.len()
            &&& says(#[trigger] events[i]) == Some(value)
            &&& forall|k: int| i < k < events.len() ==> says(#[trigger] events[k]) is None
        }
}

/// What the last event says, or what was said before it.
pub proof fn lemma_last_said<T>(
    events: Seq<JsonTree>,
    says: spec_fn(JsonTree) -> Option<T>,
    before: T,
    value: T,
)
    requires
        events.len() > 0,
        match says(events.last()) {
            Some(v) => value == v,
            None => is_last_said(events.drop_last(), says, before, value),
        },
    ensures
        is_last_said(events, says, before, value),
{
    let n = events.len() - 1;
    let most = events.drop_last();
    assert(events[n] == events.last());
    if says(events.last()) is None {
        if forall|k: int| 0 <= k < most.len() ==> says(#[trigger] most[k]) is None {
            assert forall|k: int| 0 <= k < events.len() implies says(
                #[trigger] events[k],
            ) is None by {
                if k < n {
                    assert(says(most[k]) is None);
                }
            }
        } else {
            let i = choose|i: int|
                {
                    &&& 0 <= i < most.len()
                    &&& says(#[trigger] most[i]) == Some(value)
                    &&& forall|k: int| i < k < most.len() ==> says(#[trigger] most[k]) is None
                };
            assert(says(events[i]) == Some(value));
            assert forall|k: int| i < k < events.len() implies says(#[trigger] events[k]) is None by {
                if k < n {
                    assert(says(most[k]) is None);
                }
            }
        }
    }
}

/// The last `n` entries.
pub open spec fn newest<T>(s: Seq<T>, n: nat) -> Seq<T> {
    s.skip(if s.len() <= n {
        0
    } else {
        s.len() - n
    })
}

/// The first `n` entries.
pub open spec fn earliest<T>(s: Seq<T>, n: nat) -> Seq<T> {
    s.take(
        if s.len() <= n {
            s.len() as int
        } else {
            n as int
        },
    )
}

/// The first entries of the first entries and others after them are the first
/// of all.
pub proof fn lemma_earliest<T>(a: Seq<T>, b: Seq<T>, n: nat)
    ensures
        earliest(earliest(a, n) + b, n) == earliest(a + b, n),
        earliest(a, n).len() <= n,
{
    assert(earliest(earliest(a, n) + b, n) =~= earliest(a + b, n));
}

/// What a look finds is what its events add to what still counts.
pub proof fn lemma_look<P: HostPolicy, F: LogFormat<P>>(policy: P, c: CacheView, log: LogFile)
    requires
        is_bounded(policy, c),
        is_given(log),
        look_fits::<P, F>(policy, c, Some(log)),
    ensures
        ({
            let known = standing(c, log);
            let events = new_events(c, log);
            let d = run::<P, F>(policy, events, no_delta(known.offset));
            let end = looked::<P, F>(policy, c, Some(log)).offset;
            &&& run_fits::<P, F>(policy, events, no_delta(known.offset))
            &&& merge_fits(known, d)
            &&& is_bounded(policy, known)
            &&& looked::<P, F>(policy, c, Some(log)) == merged(
                policy,
                CacheView { identity: log.identity, ..known },
                DeltaView { new_offset: end, ..d },
            )
            &&& end == known.offset + log_bytes(log.bytes@.skip(known.offset - log.start))
        }),
{
    let known = standing(c, log);
    let k = CacheView { identity: log.identity, ..known };
    let tail = log.bytes@.skip(known.offset - log.start);
    let after = looked::<P, F>(policy, c, Some(log));
    let d = run::<P, F>(policy, log_documents(tail), no_delta(known.offset));
    lemma_log_bytes(tail);
    if tail.len() == 0 {
        assert(log_documents(tail) =~= Seq::empty());
        assert(log_bytes(tail) == 0);
    }
    if log_bytes(tail) == 0 {
        lemma_unread_log_is_empty(tail);
        assert(log_documents(tail) =~= Seq::empty());
        lemma_nothing_is_merged(policy, k, known.offset);
        assert(d == no_delta(known.offset));
    }
    assert(after =~= merged(policy, k, DeltaView { new_offset: after.offset, ..d }));
}

/// Whether `text` is what the first of the events that write something writes,
/// or nothing where none of them does.
pub open spec fn is_first_written(
    events: Seq<JsonTree>,
    writes: spec_fn(JsonTree) -> Seq<char>,
    text: Seq<char>,
) -> bool {
    ||| text.len() == 0 && forall|k: int|
        0 <= k < events.len() ==> writes(#[trigger] events[k]).len() == 0
    ||| text.len() > 0 && exists|i: int|
        {
            &&& 0 <= i < events.len()
            &&& writes(#[trigger] events[i]) == text
            &&& forall|k: int| 0 <= k < i ==> writes(#[trigger] events[k]).len() == 0
        }
}

/// What was written stays; where nothing was, the last event may write.
pub proof fn lemma_first_written(
    events: Seq<JsonTree>,
    writes: spec_fn(JsonTree) -> Seq<char>,
    before: Seq<char>,
    text: Seq<char>,
)
    requires
        events.len() > 0,
        is_first_written(events.drop_last(), writes, before),
        text == if before.len() > 0 {
            before
        } else {
            writes(events.last())
        },
    ensures
        is_first_written(events, writes, text),
{
    let most = events.drop_last();
    let n = events.len() - 1;
    assert(events[n] == events.last());
    if before.len() > 0 {
        let i = choose|i: int|
            {
                &&& 0 <= i < most.len()
                &&& writes(#[trigger] most[i]) == before
                &&& forall|k: int| 0 <= k < i ==> writes(#[trigger] most[k]).len() == 0
            };
        assert(writes(events[i]) == text);
        assert forall|k: int| 0 <= k < i implies writes(#[trigger] events[k]).len() == 0 by {
            assert(writes(most[k]).len() == 0);
        }
    } else {
        assert forall|k: int| 0 <= k < n implies writes(#[trigger] events[k]).len() == 0 by {
            assert(writes(most[k]).len() == 0);
        }
        assert(writes(events[n]) == text);
    }
}

/// What is left of the newest entries and others after them is what is left of
/// all.
pub proof fn lemma_newest<T>(a: Seq<T>, b: Seq<T>, n: nat)
    ensures
        newest(newest(a, n) + b, n) == newest(a + b, n),
        newest(a + newest(b, n), n) == newest(a + b, n),
        newest(newest(a, n), n) == newest(a, n),
{
    assert(newest(newest(a, n) + b, n) =~= newest(a + b, n));
    assert(newest(a + newest(b, n), n) =~= newest(a + b, n));
    assert(newest(newest(a, n), n) =~= newest(a, n));
}

/// What was said, as something that may have been said.
pub open spec fn opt<T>(said: Option<T>) -> Option<Option<T>> {
    match said {
        Some(v) => Some(Some(v)),
        None => None,
    }
}

/// What was said last, or what was said before all of it.
pub proof fn lemma_said_after<T>(
    events: Seq<JsonTree>,
    says: spec_fn(JsonTree) -> Option<T>,
    before: T,
    said: Option<T>,
    value: T,
)
    requires
        is_last_said(events, |e: JsonTree| opt(says(e)), None, said),
        value == match said {
            Some(v) => v,
            None => before,
        },
    ensures
        is_last_said(events, says, before, value),
{
    let f = |e: JsonTree| opt(says(e));
    if said is None {
        assert forall|k: int| 0 <= k < events.len() implies says(#[trigger] events[k]) is None by {
            assert(f(events[k]) != Some(None::<T>));
            if exists|i: int|
                {
                    &&& 0 <= i < events.len()
                    &&& f(#[trigger] events[i]) == Some(said)
                    &&& forall|k: int| i < k < events.len() ==> f(#[trigger] events[k]) is None
                } {
                let i = choose|i: int| 0 <= i < events.len() && f(#[trigger] events[i]) == Some(said);
                assert(opt(says(events[i])) == Some(None::<T>));
            }
            assert(f(events[k]) is None);
        }
    } else {
        let i = choose|i: int|
            {
                &&& 0 <= i < events.len()
                &&& f(#[trigger] events[i]) == Some(said)
                &&& forall|k: int| i < k < events.len() ==> f(#[trigger] events[k]) is None
            };
        assert(says(events[i]) == Some(value));
        assert forall|k: int| i < k < events.len() implies says(#[trigger] events[k]) is None by {
            assert(f(events[k]) is None);
        }
    }
}

/// What nobody says, or says only with words, is what was said before where it
/// is empty.
pub proof fn lemma_said_in_words(
    events: Seq<JsonTree>,
    says: spec_fn(JsonTree) -> Option<Seq<char>>,
    before: Seq<char>,
    said: Seq<char>,
    value: Seq<char>,
)
    requires
        is_last_said(events, says, Seq::empty(), said),
        forall|e: JsonTree| #[trigger] says(e) is Some ==> says(e)->0.len() > 0,
        value == if said.len() > 0 {
            said
        } else {
            before
        },
    ensures
        is_last_said(events, says, before, value),
{
    if said.len() == 0 {
        assert forall|k: int| 0 <= k < events.len() implies says(#[trigger] events[k]) is None by {
            if says(events[k]) is Some {
                if !(forall|k: int| 0 <= k < events.len() ==> says(#[trigger] events[k]) is None) {
                    let i = choose|i: int|
                        {
                            &&& 0 <= i < events.len()
                            &&& says(#[trigger] events[i]) == Some(said)
                            &&& forall|k: int|
                                i < k < events.len() ==> says(#[trigger] events[k]) is None
                        };
                    assert(says(events[i])->0.len() > 0);
                }
            }
        }
    } else {
        let i = choose|i: int|
            {
                &&& 0 <= i < events.len()
                &&& says(#[trigger] events[i]) == Some(said)
                &&& forall|k: int| i < k < events.len() ==> says(#[trigger] events[k]) is None
            };
        assert(says(events[i]) == Some(value));
    }
}

/// A look reads a log up to the end of its last whole line, and remembers the
/// file and the place. Where there is no log, what is known stays.
pub proof fn law_look_remembers_the_place<P: HostPolicy, F: LogFormat<P>>(
    policy: P,
    c: CacheView,
    log: LogFile,
)
    requires
        is_bounded(policy, c),
        is_given(log),
        look_fits::<P, F>(policy, c, Some(log)),
    ensures
        looked::<P, F>(policy, c, Some(log)).identity == log.identity,
        looked::<P, F>(policy, c, Some(log)).offset == standing(c, log).offset + log_bytes(
            log.bytes@.skip(standing(c, log).offset - log.start),
        ),
        looked::<P, F>(policy, c, Some(log)).offset <= log.len,
        looked::<P, F>(policy, c, None) == c,
        look_fits::<P, F>(policy, c, None),
        log.start <= standing(c, log).offset,
{
    lemma_look::<P, F>(policy, c, log);
    lemma_log_bytes(log.bytes@.skip(standing(c, log).offset - log.start));
}

/// A part of a log tells what its events tell, and counts as read up to the end
/// of its last whole line. A part that is empty tells nothing, and a log that is
/// shorter than what was read of it is to be read from its beginning.
pub proof fn law_part_of_a_log_tells_its_events<P: HostPolicy, F: LogFormat<P>>(
    policy: P,
    file_len: u64,
    tail: Seq<u8>,
    from: u64,
)
    requires
        from + tail.len() <= u64::MAX,
    ensures
        ({
            let d = log_delta::<P, F>(policy, file_len, tail, from);
            &&& file_len > from ==> d.new_offset == from + log_bytes(tail) && d == (DeltaView {
                new_offset: d.new_offset,
                ..run::<P, F>(policy, log_documents(tail), no_delta(from))
            })
            &&& file_len == from ==> d == no_delta(from)
            &&& file_len < from ==> d == no_delta(0)
            &&& countable::<P, F>(policy, file_len, tail, from) <==> file_len <= from
                || run_fits::<P, F>(policy, log_documents(tail), no_delta(from))
        }),
{
    lemma_log_bytes(tail);
}

/// Nothing is told by no event.
pub proof fn law_nothing_tells_nothing(at: u64)
    ensures
        ({
            let d = no_delta(at);
            &&& d.new_offset == at && !d.saw_usage && d.context_tokens == 0
            &&& d.model is None && d.effort is None && d.last_activity is None
            &&& d.input == 0 && d.output == 0 && d.cache_read == 0 && d.cache_create == 0
            &&& d.turn_count == 0 && d.compaction_count == 0
            &&& d.token_history.len() == 0 && d.tool_calls.len() == 0
            &&& d.chat_messages.len() == 0 && d.file_accesses.len() == 0
            &&& d.current_task.len() == 0 && d.initial_prompt.len() == 0
            &&& d.first_assistant_text.len() == 0
        }),
{
}

/// What is kept of a session is no more than 500 calls of tools, 10000 entries
/// of each history, and as many messages and accesses to files as the policy
/// allows.
pub proof fn law_what_is_kept_is_bounded<P: HostPolicy>(policy: P, c: CacheView)
    ensures
        is_bounded(policy, c) <==> c.tool_calls.len() <= 500 && c.token_history.len() <= 10_000
            && c.context_history.len() <= 10_000 && c.chat_messages.len() <= policy.chat_limit()
            && c.file_accesses.len() <= policy.file_limit(),
{
}

/// The sum over more events is no smaller, where none counts less than nothing.
pub proof fn lemma_total_grows(events: Seq<JsonTree>, count: spec_fn(JsonTree) -> int)
    requires
        forall|e: JsonTree| #[trigger] count(e) >= 0,
    ensures
        total(events, count) >= 0,
        events.len() > 0 ==> total(events.drop_last(), count) <= total(events, count),
    decreases events.len(),
{
    if events.len() > 0 {
        lemma_total_grows(events.drop_last(), count);
    }
}

} // verus!
