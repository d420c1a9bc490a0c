//! Reading a growing log of events, a part at a time.
use crate::activity::no_delta;
use crate::activity::DeltaView;
use crate::activity::SessionDelta;
use crate::cache::absorb_fits;
use crate::cache::absorbed;
use crate::cache::alike;
use crate::cache::bytes_from;
use crate::cache::context_after;
use crate::cache::history_is_noted;
use crate::cache::is_bounded;
use crate::cache::law_cache_stays_bounded;
use crate::cache::lemma_nothing_is_merged;
use crate::cache::lists_fit;
use crate::cache::no_cache;
use crate::cache::outlook;
use crate::cache::resumed;
use crate::cache::same_lists;
use crate::cache::summary;
use crate::cache::CacheView;
use crate::cache::LogFile;
use crate::cache::SessionCache;
use crate::json::Json;
use crate::json::JsonTree;
use crate::jsonl::has_short_lines;
use crate::jsonl::law_log_resumes;
use crate::jsonl::law_rest_of_log_waits;
use crate::jsonl::lemma_log_bytes;
use crate::jsonl::lemma_unread_log_is_empty;
use crate::jsonl::log_bytes;
use crate::jsonl::log_documents;
use crate::jsonl::read_log;
use crate::jsonl::readable;
use crate::jsonl::trees;
use crate::model::ToolView;
use crate::policy::HostPolicy;
use vstd::prelude::*;
use vstd::slice::slice_subrange;

verus! {

/// What the events of a kind of log mean.
pub trait LogFormat<P: HostPolicy> {
    /// What one event adds.
    spec fn step(policy: P, event: JsonTree, d: DeltaView) -> DeltaView;

    /// Whether the counts that an event enters stay within their width.
    spec fn fits(event: JsonTree, d: DeltaView) -> bool;

    /// Whether [`LogFormat::handle_event`] keeps every count within its width.
    fn event_fits(val: &Json, delta: &SessionDelta) -> (r: bool)
        ensures
            r == Self::fits(val@, delta@),
    ;

    /// Adds one event.
    fn handle_event(policy: &P, val: &Json, delta: &mut SessionDelta)
        requires
            Self::fits(val@, old(delta)@),
        ensures
            final(delta)@ == Self::step(*policy, val@, old(delta)@),
    ;

    /// An event adds the same to deltas that are alike.
    proof fn step_continues(
        policy: P,
        event: JsonTree,
        c: CacheView,
        d: DeltaView,
        e: CacheView,
        f: DeltaView,
    )
        requires
            alike(policy, c, d, e, f),
            Self::fits(event, d),
            Self::fits(event, f),
        ensures
            alike(policy, c, Self::step(policy, event, d), e, Self::step(policy, event, f)),
    ;

    /// An event takes nothing from the tool calls and the token history, and
    /// enters the token history only with a turn's tokens.
    proof fn step_grows(policy: P, event: JsonTree, d: DeltaView)
        ensures
            d.tool_calls.len() <= Self::step(policy, event, d).tool_calls.len(),
            d.token_history.len() <= Self::step(policy, event, d).token_history.len(),
            history_is_noted(d) ==> history_is_noted(Self::step(policy, event, d)),
    ;

    /// An event adds the same to the tool calls and the token history of
    /// deltas that come to the same lists, where no bound is met.
    proof fn step_lists(
        policy: P,
        event: JsonTree,
        c: CacheView,
        d: DeltaView,
        e: CacheView,
        f: DeltaView,
    )
        requires
            same_lists(c, d, e, f),
            lists_fit(c, Self::step(policy, event, d)),
        ensures
            same_lists(c, Self::step(policy, event, d), e, Self::step(policy, event, f)),
    ;

    /// Whether an event that tells of a turn's tokens names them.
    spec fn names_tokens(event: JsonTree) -> bool;

    /// An event that names its tokens leaves the same number of them in the
    /// context window.
    proof fn step_context(
        policy: P,
        event: JsonTree,
        c: CacheView,
        d: DeltaView,
        e: CacheView,
        f: DeltaView,
    )
        requires
            Self::names_tokens(event),
            context_after(c, d) == context_after(e, f),
        ensures
            context_after(c, Self::step(policy, event, d)) == context_after(
                e,
                Self::step(policy, event, f),
            ),
    ;
}

/// What a row of events adds, one after another.
pub open spec fn run<P: HostPolicy, F: LogFormat<P>>(
    policy: P,
    events: Seq<JsonTree>,
    d: DeltaView,
) -> DeltaView
    decreases events.len(),
{
    if events.len() == 0 {
        d
    } else {
        F::step(policy, events.last(), run::<P, F>(policy, events.drop_last(), d))
    }
}

/// Whether every event of the row finds its counts within their width.
pub open spec fn run_fits<P: HostPolicy, F: LogFormat<P>>(
    policy: P,
    events: Seq<JsonTree>,
    d: DeltaView,
) -> bool
    decreases events.len(),
{
    events.len() > 0 ==> run_fits::<P, F>(policy, events.drop_last(), d) && F::fits(
        events.last(),
        run::<P, F>(policy, events.drop_last(), d),
    )
}

/// What the new part of a log adds, or nothing where the log stops short of
/// the place up to which it was read before.
pub open spec fn log_delta<P: HostPolicy, F: LogFormat<P>>(
    policy: P,
    file_len: u64,
    tail: Seq<u8>,
    from_offset: u64,
) -> DeltaView {
    if file_len < from_offset {
        no_delta(0)
    } else if file_len == from_offset {
        no_delta(from_offset)
    } else {
        DeltaView {
            new_offset: (from_offset + log_bytes(tail)) as u64,
            ..run::<P, F>(policy, log_documents(tail), no_delta(from_offset))
        }
    }
}

/// Whether reading the new part of a log keeps every count within its width.
pub open spec fn countable<P: HostPolicy, F: LogFormat<P>>(
    policy: P,
    file_len: u64,
    tail: Seq<u8>,
    from_offset: u64,
) -> bool {
    file_len > from_offset ==> run_fits::<P, F>(policy, log_documents(tail), no_delta(from_offset))
}

/// Adds a row of events, where every count stays within its width.
pub fn add_events<P: HostPolicy, F: LogFormat<P>>(
    policy: &P,
    events: &Vec<Json>,
    from_offset: u64,
) -> (r: Option<SessionDelta>)
    ensures
        match r {
            Some(d) => run_fits::<P, F>(*policy, trees(events@), no_delta(from_offset)) && d@
                == run::<P, F>(*policy, trees(events@), no_delta(from_offset)),
            None => !run_fits::<P, F>(*policy, trees(events@), no_delta(from_offset)),
        },
{
    let ghost all = trees(events@);
    let ghost start = no_delta(from_offset);
    let mut delta = SessionDelta::starting_at(from_offset);
    let mut i: usize = 0;
    assert(all.take(0) =~= Seq::empty());
    while i < events.len()
        invariant
            i <= events@.len(),
            all == trees(events@),
            start == no_delta(from_offset),
            run_fits::<P, F>(*policy, all.take(i as int), start),
            delta@ == run::<P, F>(*policy, all.take(i as int), start),
        decreases events@.len() - i,
    {
        assert(all.take(i + 1).drop_last() =~= all.take(i as int));
        assert(all.take(i + 1).last() == events@[i as int]@);
        if !F::event_fits(&events[i], &delta) {
            proof {
                lemma_unfit_stays::<P, F>(*policy, all, start, i + 1);
            }
            return None;
        }
        F::handle_event(policy, &events[i], &mut delta);
        i += 1;
    }
    assert(all.take(i as int) =~= all);
    Some(delta)
}

proof fn lemma_unfit_stays<P: HostPolicy, F: LogFormat<P>>(
    policy: P,
    events: Seq<JsonTree>,
    d: DeltaView,
    n: int,
)
    requires
        0 <= n <= events.len(),
        !run_fits::<P, F>(policy, events.take(n), d),
    ensures
        !run_fits::<P, F>(policy, events, d),
    decreases events.len(),
{
    if n == events.len() {
        assert(events.take(n) =~= events);
    } else {
        assert(events.drop_last().take(n) =~= events.take(n));
        lemma_unfit_stays::<P, F>(policy, events.drop_last(), d, n);
    }
}

/// Reads the new part of a log: the bytes of a file of `file_len` bytes from
/// `from_offset` on. There is no answer where a count would outgrow its width.
pub fn parse_log<P: HostPolicy, F: LogFormat<P>>(
    policy: &P,
    file_len: u64,
    tail: &[u8],
    from_offset: u64,
) -> (r: Option<SessionDelta>)
    requires
        from_offset + tail@.len() <= u64::MAX,
    ensures
        match r {
            Some(d) => countable::<P, F>(*policy, file_len, tail@, from_offset) && d@ == log_delta::<
                P,
                F,
            >(*policy, file_len, tail@, from_offset),
            None => !countable::<P, F>(*policy, file_len, tail@, from_offset),
        },
{
    if file_len < from_offset {
        return Some(SessionDelta::starting_at(0));
    }
    if file_len == from_offset {
        return Some(SessionDelta::starting_at(from_offset));
    }
    let (events, consumed) = read_log(tail);
    match add_events::<P, F>(policy, &events, from_offset) {
        Some(d) => {
            let mut delta = d;
            delta.new_offset = from_offset + consumed as u64;
            Some(delta)
        },
        None => None,
    }
}

/// What is known once the new part of a log is added.
pub open spec fn log_read<P: HostPolicy, F: LogFormat<P>>(
    policy: P,
    c: CacheView,
    identity: (u64, u64),
    file_len: u64,
    tail: Seq<u8>,
) -> CacheView {
    absorbed(
        policy,
        c,
        identity,
        file_len,
        log_delta::<P, F>(policy, file_len, tail, resumed(c, identity, file_len).offset),
    )
}

/// Whether reading the new part of a log and adding it keeps every count
/// within its width.
pub open spec fn log_read_fits<P: HostPolicy, F: LogFormat<P>>(
    policy: P,
    c: CacheView,
    identity: (u64, u64),
    file_len: u64,
    tail: Seq<u8>,
) -> bool {
    let from = resumed(c, identity, file_len).offset;
    &&& from + tail.len() <= u64::MAX
    &&& countable::<P, F>(policy, file_len, tail, from)
    &&& absorb_fits(c, identity, file_len, log_delta::<P, F>(policy, file_len, tail, from))
}

/// What is known once a look is taken at the log, where there is one.
pub open spec fn looked<P: HostPolicy, F: LogFormat<P>>(
    policy: P,
    c: CacheView,
    log: Option<LogFile>,
) -> CacheView {
    match log {
        Some(l) => log_read::<P, F>(
            policy,
            c,
            l.identity,
            l.len,
            bytes_from(l, resumed(c, l.identity, l.len).offset),
        ),
        None => c,
    }
}

/// Whether a look at the log, where there is one, finds it given from the place
/// on where the last one ended, and keeps every count within its width.
pub open spec fn look_fits<P: HostPolicy, F: LogFormat<P>>(
    policy: P,
    c: CacheView,
    log: Option<LogFile>,
) -> bool {
    match log {
        Some(l) => l.start <= resumed(c, l.identity, l.len).offset && log_read_fits::<P, F>(
            policy,
            c,
            l.identity,
            l.len,
            bytes_from(l, resumed(c, l.identity, l.len).offset),
        ),
        None => true,
    }
}

/// Takes a look at the log, where there is one. Where its new bytes are not
/// given, or a count would outgrow its width, the answer is `false`.
pub fn look<P: HostPolicy, F: LogFormat<P>>(
    policy: &P,
    cache: &mut SessionCache,
    log: &Option<LogFile>,
) -> (r: bool)
    ensures
        r == look_fits::<P, F>(*policy, old(cache)@, *log),
        r ==> final(cache)@ == looked::<P, F>(*policy, old(cache)@, *log),
{
    let l = match log {
        Some(l) => l,
        None => {
            return true;
        },
    };
    let from = cache.resume_offset(l.identity, l.len);
    if l.start > from {
        return false;
    }
    let given = l.bytes.len();
    let skipped = from - l.start;
    let pos = if skipped <= given as u64 {
        skipped as usize
    } else {
        given
    };
    let tail = slice_subrange(l.bytes.as_slice(), pos, given);
    assert(tail@ =~= bytes_from(*l, from));
    if tail.len() as u64 > 0xffff_ffff_ffff_ffff - from {
        return false;
    }
    match parse_log::<P, F>(policy, l.len, tail, from) {
        Some(delta) => cache.absorb(policy, l.identity, l.len, delta),
        None => false,
    }
}

proof fn lemma_run_continues<P: HostPolicy, F: LogFormat<P>>(
    policy: P,
    events: Seq<JsonTree>,
    c: CacheView,
    d: DeltaView,
    e: CacheView,
    f: DeltaView,
)
    requires
        alike(policy, c, d, e, f),
        run_fits::<P, F>(policy, events, d),
        run_fits::<P, F>(policy, events, f),
    ensures
        alike(policy, c, run::<P, F>(policy, events, d), e, run::<P, F>(policy, events, f)),
    decreases events.len(),
{
    if events.len() > 0 {
        let most = events.drop_last();
        lemma_run_continues::<P, F>(policy, most, c, d, e, f);
        F::step_continues(
            policy,
            events.last(),
            c,
            run::<P, F>(policy, most, d),
            e,
            run::<P, F>(policy, most, f),
        );
    }
}

proof fn lemma_run_in_parts<P: HostPolicy, F: LogFormat<P>>(
    policy: P,
    a: Seq<JsonTree>,
    b: Seq<JsonTree>,
    d: DeltaView,
)
    ensures
        run::<P, F>(policy, a + b, d) == run::<P, F>(policy, b, run::<P, F>(policy, a, d)),
        run_fits::<P, F>(policy, a + b, d) ==> run_fits::<P, F>(policy, a, d) && run_fits::<P, F>(
            policy,
            b,
            run::<P, F>(policy, a, d),
        ),
    decreases b.len(),
{
    if b.len() == 0 {
        assert(a + b =~= a);
    } else {
        assert((a + b).drop_last() =~= a + b.drop_last());
        assert((a + b).last() == b.last());
        lemma_run_in_parts::<P, F>(policy, a, b.drop_last(), d);
    }
}

/// What one look at a log tells of the session.
proof fn lemma_one_look<P: HostPolicy, F: LogFormat<P>>(
    policy: P,
    c: CacheView,
    file_len: u64,
    tail: Seq<u8>,
)
    requires
        is_bounded(policy, c),
        c.offset + tail.len() == file_len,
        log_read_fits::<P, F>(policy, c, c.identity, file_len, tail),
    ensures
        log_read::<P, F>(policy, c, c.identity, file_len, tail).identity == c.identity,
        log_read::<P, F>(policy, c, c.identity, file_len, tail).offset == c.offset + log_bytes(
            tail,
        ),
        summary(log_read::<P, F>(policy, c, c.identity, file_len, tail)) == outlook(
            policy,
            c,
            run::<P, F>(policy, log_documents(tail), no_delta(c.offset)),
        ),
{
    lemma_log_bytes(tail);
    if tail.len() == 0 {
        assert(!readable(tail));
    }
    if log_bytes(tail) == 0 {
        lemma_unread_log_is_empty(tail);
        lemma_nothing_is_merged(policy, c, c.offset);
    }
}

/// What is known after a look at a log that ends with `a`.
pub open spec fn looked_once<P: HostPolicy, F: LogFormat<P>>(
    policy: P,
    c: CacheView,
    a: Seq<u8>,
) -> CacheView {
    log_read::<P, F>(policy, c, c.identity, (c.offset + a.len()) as u64, a)
}

/// What a look at a log that ends with `a` leaves to the next one, once `b` was
/// written after it.
pub open spec fn left_over(a: Seq<u8>, b: Seq<u8>) -> Seq<u8> {
    (a + b).skip(log_bytes(a) as int)
}

/// What is known after a look at a log that ends with `a`, and another once `b`
/// was written after it.
pub open spec fn looked_twice<P: HostPolicy, F: LogFormat<P>>(
    policy: P,
    c: CacheView,
    a: Seq<u8>,
    b: Seq<u8>,
) -> CacheView {
    looked_once::<P, F>(policy, looked_once::<P, F>(policy, c, a), left_over(a, b))
}

/// Whether a look at `a`, another once `b` was written after it, and one at
/// both keep every count within its width.
pub open spec fn parts_fit<P: HostPolicy, F: LogFormat<P>>(
    policy: P,
    c: CacheView,
    a: Seq<u8>,
    b: Seq<u8>,
) -> bool {
    let mid = (c.offset + a.len()) as u64;
    let end = (c.offset + a.len() + b.len()) as u64;
    let first = looked_once::<P, F>(policy, c, a);
    &&& log_read_fits::<P, F>(policy, c, c.identity, mid, a)
    &&& log_read_fits::<P, F>(policy, first, c.identity, end, left_over(a, b))
    &&& log_read_fits::<P, F>(policy, c, c.identity, end, a + b)
}

/// Whether a look at `a`, and another once `b` was written after it, tell the
/// same of the session as one look at both, and stop at the same place.
pub open spec fn parts_agree<P: HostPolicy, F: LogFormat<P>>(
    policy: P,
    c: CacheView,
    a: Seq<u8>,
    b: Seq<u8>,
) -> bool {
    let in_parts = looked_twice::<P, F>(policy, c, a, b);
    let at_once = looked_once::<P, F>(policy, c, a + b);
    &&& summary(in_parts) == summary(at_once)
    &&& in_parts.offset == at_once.offset
    &&& in_parts.identity == at_once.identity
}

/// A log that is read while its last line may still be unfinished, and again
/// once it has grown, tells the same of the session as one look at the grown
/// log.
pub proof fn law_log_is_read_in_parts<P: HostPolicy, F: LogFormat<P>>(
    policy: P,
    c: CacheView,
    a: Seq<u8>,
    b: Seq<u8>,
)
    requires
        is_bounded(policy, c),
        has_short_lines(a),
        c.offset + a.len() + b.len() <= u64::MAX,
        parts_fit::<P, F>(policy, c, a, b),
    ensures
        parts_agree::<P, F>(policy, c, a, b),
{
    let o = c.offset;
    let mid = (o + a.len()) as u64;
    let end = (o + a.len() + b.len()) as u64;
    let docs_a = log_documents(a);
    let rest = left_over(a, b);
    let docs_b = log_documents(rest);
    law_log_resumes(a, b);
    lemma_log_bytes(a);
    lemma_run_in_parts::<P, F>(policy, docs_a, docs_b, no_delta(o));
    let first = looked_once::<P, F>(policy, c, a);
    let d1 = run::<P, F>(policy, docs_a, no_delta(o));
    lemma_one_look::<P, F>(policy, c, mid, a);
    law_cache_stays_bounded(
        policy,
        c,
        c.identity,
        mid,
        log_delta::<P, F>(policy, mid, a, o),
    );
    lemma_nothing_is_merged(policy, first, first.offset);
    assert(alike(policy, first, no_delta(first.offset), c, d1)) by {
        reveal(alike);
    }
    assert((a + b).len() == a.len() + b.len());
    assert(first.offset + rest.len() == end);
    lemma_one_look::<P, F>(policy, first, end, rest);
    lemma_one_look::<P, F>(policy, c, end, a + b);
    if rest.len() == 0 {
        assert(!readable(rest));
        assert(docs_b =~= Seq::empty());
    } else {
        lemma_run_continues::<P, F>(policy, docs_b, first, no_delta(first.offset), c, d1);
    }
    reveal(alike);
}

/// However often a log is looked at, what is kept of it stays bounded.
pub proof fn law_looks_stay_bounded<P: HostPolicy, F: LogFormat<P>>(
    policy: P,
    c: CacheView,
    log: Option<LogFile>,
)
    requires
        is_bounded(policy, c),
    ensures
        is_bounded(policy, looked::<P, F>(policy, c, log)),
{
    if let Some(l) = log {
        let from = resumed(c, l.identity, l.len).offset;
        law_cache_stays_bounded(
            policy,
            c,
            l.identity,
            l.len,
            log_delta::<P, F>(policy, l.len, bytes_from(l, from), from),
        );
    }
}

/// A log that has not grown since it was read tells nothing new, whatever is
/// left of it: what is known stays as it is.
pub proof fn law_unchanged_log_adds_nothing<P: HostPolicy, F: LogFormat<P>>(
    policy: P,
    c: CacheView,
    identity: (u64, u64),
    file_len: u64,
    tail: Seq<u8>,
)
    requires
        is_bounded(policy, c),
        has_short_lines(tail),
        resumed(c, identity, file_len).offset + tail.len() == file_len,
    ensures
        ({
            let once = log_read::<P, F>(policy, c, identity, file_len, tail);
            let rest = tail.skip(log_bytes(tail) as int);
            log_read::<P, F>(policy, once, identity, file_len, rest) == once
        }),
{
    let from = resumed(c, identity, file_len).offset;
    let once = log_read::<P, F>(policy, c, identity, file_len, tail);
    law_cache_stays_bounded(
        policy,
        c,
        identity,
        file_len,
        log_delta::<P, F>(policy, file_len, tail, from),
    );
    law_rest_of_log_waits(tail);
    lemma_log_bytes(tail);
    if tail.len() == 0 {
        assert(!readable(tail));
    }
    assert(once.offset == from + log_bytes(tail));
    lemma_nothing_is_merged(policy, once, once.offset);
}

/// A log in another file than before, and one that holds less than was read of
/// it, is read anew, from its beginning: what was known does not count.
pub proof fn law_replaced_log_is_read_anew<P: HostPolicy, F: LogFormat<P>>(
    policy: P,
    c: CacheView,
    log: LogFile,
)
    requires
        c.identity != log.identity || log.len < c.offset,
    ensures
        resumed(c, log.identity, log.len).offset == 0,
        looked::<P, F>(policy, c, Some(log)) == looked::<P, F>(policy, no_cache(), Some(log)),
        look_fits::<P, F>(policy, c, Some(log)) == look_fits::<P, F>(
            policy,
            no_cache(),
            Some(log),
        ),
{
    assert(resumed(no_cache(), log.identity, log.len) == (CacheView {
        identity: log.identity,
        ..no_cache()
    }));
}

proof fn lemma_run_grows<P: HostPolicy, F: LogFormat<P>>(
    policy: P,
    events: Seq<JsonTree>,
    d: DeltaView,
)
    ensures
        d.tool_calls.len() <= run::<P, F>(policy, events, d).tool_calls.len(),
        d.token_history.len() <= run::<P, F>(policy, events, d).token_history.len(),
        history_is_noted(d) ==> history_is_noted(run::<P, F>(policy, events, d)),
    decreases events.len(),
{
    if events.len() > 0 {
        lemma_run_grows::<P, F>(policy, events.drop_last(), d);
        F::step_grows(policy, events.last(), run::<P, F>(policy, events.drop_last(), d));
    }
}

proof fn lemma_run_lists<P: HostPolicy, F: LogFormat<P>>(
    policy: P,
    events: Seq<JsonTree>,
    c: CacheView,
    d: DeltaView,
    e: CacheView,
    f: DeltaView,
)
    requires
        same_lists(c, d, e, f),
        lists_fit(c, run::<P, F>(policy, events, d)),
    ensures
        same_lists(c, run::<P, F>(policy, events, d), e, run::<P, F>(policy, events, f)),
    decreases events.len(),
{
    if events.len() > 0 {
        let most = events.drop_last();
        F::step_grows(policy, events.last(), run::<P, F>(policy, most, d));
        lemma_run_lists::<P, F>(policy, most, c, d, e, f);
        F::step_lists(
            policy,
            events.last(),
            c,
            run::<P, F>(policy, most, d),
            e,
            run::<P, F>(policy, most, f),
        );
    }
}

/// What one look at a log adds to the lists.
proof fn lemma_one_look_at_lists<P: HostPolicy, F: LogFormat<P>>(
    policy: P,
    c: CacheView,
    file_len: u64,
    tail: Seq<u8>,
)
    requires
        c.offset + tail.len() == file_len,
        lists_fit(c, run::<P, F>(policy, log_documents(tail), no_delta(c.offset))),
    ensures
        ({
            let after = log_read::<P, F>(policy, c, c.identity, file_len, tail);
            let d = run::<P, F>(policy, log_documents(tail), no_delta(c.offset));
            &&& after.tool_calls == c.tool_calls + d.tool_calls
            &&& after.token_history == c.token_history + d.token_history
        }),
{
    let d = run::<P, F>(policy, log_documents(tail), no_delta(c.offset));
    lemma_run_grows::<P, F>(policy, log_documents(tail), no_delta(c.offset));
    lemma_log_bytes(tail);
    assert(c.tool_calls + Seq::<ToolView>::empty() =~= c.tool_calls);
    assert(c.token_history + Seq::<u64>::empty() =~= c.token_history);
    if tail.len() == 0 {
        assert(!readable(tail));
    }
    if log_bytes(tail) == 0 {
        lemma_unread_log_is_empty(tail);
    }
    if d.token_history.len() == 0 {
        assert(d.token_history =~= Seq::empty());
    }
}

/// A log that is read while its last line may still be unfinished, and again
/// once it has grown, tells the same tool calls and token history as one look
/// at the grown log, where neither list meets its bound. (Where one does, a
/// look keeps the first entries that it finds, and what is known the last.)
pub proof fn law_lists_are_read_in_parts<P: HostPolicy, F: LogFormat<P>>(
    policy: P,
    c: CacheView,
    a: Seq<u8>,
    b: Seq<u8>,
)
    requires
        is_bounded(policy, c),
        has_short_lines(a),
        c.offset + a.len() + b.len() <= u64::MAX,
        parts_fit::<P, F>(policy, c, a, b),
        lists_fit(c, run::<P, F>(policy, log_documents(a + b), no_delta(c.offset))),
    ensures
        ({
            let in_parts = looked_twice::<P, F>(policy, c, a, b);
            let at_once = looked_once::<P, F>(policy, c, a + b);
            &&& in_parts.tool_calls == at_once.tool_calls
            &&& in_parts.token_history == at_once.token_history
        }),
{
    let o = c.offset;
    let mid = (o + a.len()) as u64;
    let end = (o + a.len() + b.len()) as u64;
    let docs_a = log_documents(a);
    let rest = left_over(a, b);
    let docs_b = log_documents(rest);
    law_log_resumes(a, b);
    lemma_log_bytes(a);
    lemma_run_in_parts::<P, F>(policy, docs_a, docs_b, no_delta(o));
    let d1 = run::<P, F>(policy, docs_a, no_delta(o));
    lemma_run_grows::<P, F>(policy, docs_b, d1);
    let first = looked_once::<P, F>(policy, c, a);
    lemma_one_look::<P, F>(policy, c, mid, a);
    lemma_one_look_at_lists::<P, F>(policy, c, mid, a);
    assert(first.tool_calls + Seq::<ToolView>::empty() =~= first.tool_calls);
    assert(first.token_history + Seq::<u64>::empty() =~= first.token_history);
    lemma_run_lists::<P, F>(policy, docs_b, c, d1, first, no_delta(first.offset));
    let d2 = run::<P, F>(policy, docs_b, no_delta(first.offset));
    let all = run::<P, F>(policy, docs_b, d1);
    assert((c.tool_calls + all.tool_calls).len() == (first.tool_calls + d2.tool_calls).len());
    assert((c.token_history + all.token_history).len() == (first.token_history
        + d2.token_history).len());
    assert((a + b).len() == a.len() + b.len());
    assert(first.offset + rest.len() == end);
    lemma_one_look_at_lists::<P, F>(policy, first, end, rest);
    lemma_one_look_at_lists::<P, F>(policy, c, end, a + b);
}

/// Whether every event that tells of a turn's tokens names them.
pub open spec fn all_name_tokens<P: HostPolicy, F: LogFormat<P>>(events: Seq<JsonTree>) -> bool {
    forall|i: int| 0 <= i < events.len() ==> F::names_tokens(#[trigger] events[i])
}

proof fn lemma_run_context<P: HostPolicy, F: LogFormat<P>>(
    policy: P,
    events: Seq<JsonTree>,
    c: CacheView,
    d: DeltaView,
    e: CacheView,
    f: DeltaView,
)
    requires
        all_name_tokens::<P, F>(events),
        context_after(c, d) == context_after(e, f),
    ensures
        context_after(c, run::<P, F>(policy, events, d)) == context_after(
            e,
            run::<P, F>(policy, events, f),
        ),
    decreases events.len(),
{
    if events.len() > 0 {
        let most = events.drop_last();
        assert(F::names_tokens(events[events.len() - 1]));
        assert forall|i: int| 0 <= i < most.len() implies F::names_tokens(#[trigger] most[i]) by {
            assert(F::names_tokens(events[i]));
        }
        lemma_run_context::<P, F>(policy, most, c, d, e, f);
        F::step_context(
            policy,
            events.last(),
            c,
            run::<P, F>(policy, most, d),
            e,
            run::<P, F>(policy, most, f),
        );
    }
}

/// What one look at a log leaves in the context window.
proof fn lemma_one_look_at_context<P: HostPolicy, F: LogFormat<P>>(
    policy: P,
    c: CacheView,
    file_len: u64,
    tail: Seq<u8>,
)
    requires
        c.offset + tail.len() == file_len,
    ensures
        log_read::<P, F>(policy, c, c.identity, file_len, tail).context_tokens == context_after(
            c,
            run::<P, F>(policy, log_documents(tail), no_delta(c.offset)),
        ),
{
    lemma_log_bytes(tail);
    if tail.len() == 0 {
        assert(!readable(tail));
    }
    if log_bytes(tail) == 0 {
        lemma_unread_log_is_empty(tail);
    }
}

/// A log that is read while its last line may still be unfinished, and again
/// once it has grown, tells the same number of tokens in the context window as
/// one look at the grown log, where every event of the second look that tells
/// of a turn's tokens names them.
pub proof fn law_context_is_read_in_parts<P: HostPolicy, F: LogFormat<P>>(
    policy: P,
    c: CacheView,
    a: Seq<u8>,
    b: Seq<u8>,
)
    requires
        has_short_lines(a),
        c.offset + a.len() + b.len() <= u64::MAX,
        all_name_tokens::<P, F>(log_documents(left_over(a, b))),
    ensures
        looked_twice::<P, F>(policy, c, a, b).context_tokens == looked_once::<P, F>(
            policy,
            c,
            a + b,
        ).context_tokens,
{
    let o = c.offset;
    let mid = (o + a.len()) as u64;
    let end = (o + a.len() + b.len()) as u64;
    let docs_a = log_documents(a);
    let rest = left_over(a, b);
    let docs_b = log_documents(rest);
    law_log_resumes(a, b);
    lemma_log_bytes(a);
    if a.len() == 0 {
        assert(!readable(a));
    }
    lemma_run_in_parts::<P, F>(policy, docs_a, docs_b, no_delta(o));
    let d1 = run::<P, F>(policy, docs_a, no_delta(o));
    let first = looked_once::<P, F>(policy, c, a);
    assert(first.offset == o + log_bytes(a));
    lemma_one_look_at_context::<P, F>(policy, c, mid, a);
    lemma_run_context::<P, F>(policy, docs_b, first, no_delta(first.offset), c, d1);
    assert((a + b).len() == a.len() + b.len());
    assert(first.offset + rest.len() == end);
    lemma_one_look_at_context::<P, F>(policy, first, end, rest);
    lemma_one_look_at_context::<P, F>(policy, c, end, a + b);
}

} // verus!
