//! What is reported, in what order, and what stays known.
use crate::activity::SessionDelta;
use crate::cache::CacheView;
use crate::cache::SessionCache;
use crate::cache::no_cache;
use crate::caches::known;
use crate::caches::retained;
use crate::hermes::DbSession;
use crate::hermes::HermesHome;
use crate::hermes::hermes_home;
use crate::kimi::collector::PlannedSession;
use crate::kimi::collector::kimi_session;
use crate::kimi::collector::loaded;
use crate::kimi::index::IndexEntry;
use crate::kimi::index::KnownSession;
use crate::kimi::wire::Wire;
use crate::model::AgentSession;
use crate::model::SessionView;
use crate::model::session_views;
use crate::order::Ranked;
use crate::order::is_stable_sorting;
use crate::order::law_sorting_keeps_entries;
use crate::pi::discovery::TranscriptFile;
use crate::pi::discovery::TranscriptHeader;
use crate::pi::sidecar::Sidecar;
use crate::policy::HostPolicy;
use crate::process::SharedProcessData;
use crate::report::is_report;
use crate::report::session_ids;
use crate::tailing::look_fits;
use crate::tailing::looked;
use vstd::prelude::*;

verus! {

/// The home is where the environment says; where it says nothing, in the
/// directory for local application data, where there is one.
pub proof fn law_home_is_found(named: bool, local_is_dir: bool, r: HermesHome)
    requires
        call_ensures(hermes_home, (named, local_is_dir), r),
    ensures
        r == HermesHome::Named <==> named,
        r == HermesHome::LocalAppData <==> !named && local_is_dir,
{
}

/// What a session stands for is what it holds, each part under its own name.
pub proof fn law_session_stands_for_what_it_holds(s: AgentSession)
    ensures
        s@.agent_cli == s.agent_cli@,
        s@.pid == s.pid,
        s@.session_id == s.session_id@,
        s@.cwd == s.cwd@,
        s@.project_name == s.project_name@,
        s@.started_at == s.started_at,
        s@.status == s.status,
        s@.model == s.model@,
        s@.effort == s.effort@,
        s@.context_percent == s.context_percent,
        s@.total_input_tokens == s.total_input_tokens,
        s@.total_output_tokens == s.total_output_tokens,
        s@.total_cache_read == s.total_cache_read,
        s@.total_cache_create == s.total_cache_create,
        s@.turn_count == s.turn_count,
        s@.mem_mb == s.mem_mb,
        s@.version == s.version@,
        s@.git_branch == s.git_branch@,
        s@.git_added == s.git_added,
        s@.git_modified == s.git_modified,
        s@.token_history == s.token_history@,
        s@.context_history == s.context_history@,
        s@.compaction_count == s.compaction_count,
        s@.context_window == s.context_window,
        s@.mem_file_count == s.mem_file_count,
        s@.mem_line_count == s.mem_line_count,
        s@.initial_prompt == s.initial_prompt@,
        s@.first_assistant_text == s.first_assistant_text@,
        s@.pending_since_ms == s.pending_since_ms,
        s@.thinking_since_ms == s.thinking_since_ms,
        s@.config_root == s.config_root@,
        s@.current_tasks.len() == s.current_tasks@.len(),
        forall|i: int|
            0 <= i < s.current_tasks@.len() ==> #[trigger] s@.current_tasks[i]
                == s.current_tasks@[i]@,
        s@.subagents.len() == s.subagents@.len(),
        forall|i: int|
            0 <= i < s.subagents@.len() ==> #[trigger] s@.subagents[i] == s.subagents@[i]@,
        s@.children.len() == s.children@.len(),
        forall|i: int|
            0 <= i < s.children@.len() ==> {
                let k = s.children@[i];
                &&& (#[trigger] s@.children[i]).pid == k.pid
                &&& s@.children[i].command == k.command@
                &&& s@.children[i].mem_kb == k.mem_kb
                &&& s@.children[i].port == k.port
            },
        s@.chat_messages.len() == s.chat_messages@.len(),
        forall|i: int|
            0 <= i < s.chat_messages@.len() ==> (#[trigger] s@.chat_messages[i]).role
                == s.chat_messages@[i].role && s@.chat_messages[i].text == s.chat_messages@[i].text@,
        s@.tool_calls.len() == s.tool_calls@.len(),
        forall|i: int|
            0 <= i < s.tool_calls@.len() ==> (#[trigger] s@.tool_calls[i]).name
                == s.tool_calls@[i].name@ && s@.tool_calls[i].arg == s.tool_calls@[i].arg@
                && s@.tool_calls[i].duration_ms == s.tool_calls@[i].duration_ms,
        s@.file_accesses.len() == s.file_accesses@.len(),
        forall|i: int|
            0 <= i < s.file_accesses@.len() ==> (#[trigger] s@.file_accesses[i]).path
                == s.file_accesses@[i].path@ && s@.file_accesses[i].operation
                == s.file_accesses@[i].operation && s@.file_accesses[i].turn_index
                == s.file_accesses@[i].turn_index,
{
}

/// What a look adds, and what is known, stand for what they hold.
pub proof fn law_looks_stand_for_what_they_hold(d: SessionDelta, c: SessionCache)
    ensures
        d@.new_offset == d.new_offset && d@.saw_usage == d.saw_usage && d@.context_tokens
            == d.context_tokens && d@.last_activity == d.last_activity,
        d@.input == d.input && d@.output == d.output && d@.cache_read == d.cache_read
            && d@.cache_create == d.cache_create,
        d@.turn_count == d.turn_count && d@.compaction_count == d.compaction_count,
        d@.model is Some <==> d.model is Some,
        d.model is Some ==> d@.model->0 == d.model->0@,
        d@.effort is Some <==> d.effort is Some,
        d.effort is Some ==> d@.effort->0 == d.effort->0@,
        d@.current_task == d.current_task@ && d@.initial_prompt == d.initial_prompt@
            && d@.first_assistant_text == d.first_assistant_text@,
        d@.token_history == d.token_history@,
        d@.tool_calls.len() == d.tool_calls@.len() && d@.chat_messages.len()
            == d.chat_messages@.len() && d@.file_accesses.len() == d.file_accesses@.len(),
        c@.offset == c.offset && c@.identity == c.identity && c@.context_tokens == c.context_tokens
            && c@.last_activity == c.last_activity,
        c@.total_input == c.total_input && c@.total_output == c.total_output
            && c@.total_cache_read == c.total_cache_read && c@.total_cache_create
            == c.total_cache_create,
        c@.turn_count == c.turn_count && c@.compaction_count == c.compaction_count,
        c@.model == c.model@ && c@.effort == c.effort@ && c@.current_task == c.current_task@
            && c@.initial_prompt == c.initial_prompt@ && c@.first_assistant_text
            == c.first_assistant_text@,
        c@.token_history == c.token_history@ && c@.context_history == c.context_history@,
        c@.tool_calls.len() == c.tool_calls@.len() && c@.chat_messages.len()
            == c.chat_messages@.len() && c@.file_accesses.len() == c.file_accesses@.len(),
{
}

/// Rows, claims, headers and entries stand for what they hold.
pub proof fn law_records_stand_for_what_they_hold(
    r: DbSession,
    s: Sidecar,
    h: TranscriptHeader,
    e: IndexEntry,
)
    ensures
        r@.id == r.id@ && r@.title == r.title@ && r@.model == r.model@ && r@.source == r.source@
            && r@.preview == r.preview@,
        r@.started_at_ms == r.started_at_ms && r@.last_active_ms == r.last_active_ms,
        r@.message_count == r.message_count && r@.tool_call_count == r.tool_call_count,
        r@.input_tokens == r.input_tokens && r@.output_tokens == r.output_tokens && r@.cache_read
            == r.cache_read && r@.cache_write == r.cache_write && r@.reasoning_tokens
            == r.reasoning_tokens,
        s@.pid == s.pid && s@.proc_start == s.proc_start && s@.agent == s.agent@ && s@.started_at
            == s.started_at,
        s@.session_id == s.session_id@ && s@.session_file == s.session_file@ && s@.cwd == s.cwd@,
        s@.context_window == s.context_window && s@.context_percent == s.context_percent,
        s@.version is Some <==> s.version is Some,
        s.version is Some ==> s@.version->0 == s.version->0@,
        s@.model is Some <==> s.model is Some,
        s.model is Some ==> s@.model->0 == s.model->0@,
        s@.title is Some <==> s.title is Some,
        s.title is Some ==> s@.title->0 == s.title->0@,
        h@.session_id == h.session_id@ && h@.cwd == h.cwd@ && h@.started_at == h.started_at
            && h@.path == h.path@,
        e@.session_id == e.session_id@ && e@.session_dir == e.session_dir@ && e@.work_dir
            == e.work_dir@,
{
}

/// Sorted sessions come newest first, and sorted transcripts the one changed
/// last first.
pub proof fn law_sorted_is_newest_first(
    s: Seq<AgentSession>,
    r: Seq<AgentSession>,
    f: Seq<TranscriptFile>,
    g: Seq<TranscriptFile>,
    i: int,
    j: int,
)
    requires
        is_stable_sorting(s, r),
        is_stable_sorting(f, g),
        0 <= i < j,
    ensures
        j < r.len() ==> r[i].started_at >= r[j].started_at,
        j < g.len() ==> g[i].modified_secs >= g[j].modified_secs,
{
    if j < r.len() {
        assert(r[i].rank() >= r[j].rank());
    }
    if j < g.len() {
        assert(g[i].rank() >= g[j].rank());
    }
}

/// The sessions that started at the given time, in order.
pub open spec fn started_at(s: Seq<AgentSession>, k: u64) -> Seq<AgentSession> {
    s.filter(|x: AgentSession| x.started_at == k)
}

proof fn lemma_rank_filter(s: Seq<AgentSession>, k: u64)
    ensures
        crate::order::with_rank(s, k) == started_at(s, k),
    decreases s.len(),
{
    reveal(Seq::filter);
    if s.len() > 0 {
        lemma_rank_filter(s.drop_last(), k);
        assert(s.last().rank() == s.last().started_at);
    }
}

/// A report holds the sessions that were loaded, each as often as it was, the
/// newest first, and those that started at the same time in the order of
/// loading. What stays known is what is known of the sessions in it.
pub proof fn law_report_is_complete(
    r: Seq<AgentSession>,
    caches: Map<Seq<char>, CacheView>,
    loaded: (Map<Seq<char>, CacheView>, Seq<SessionView>),
)
    requires
        is_report(r, caches, loaded),
    ensures
        r.len() == loaded.1.len(),
        forall|i: int, j: int|
            0 <= i < j < r.len() ==> (#[trigger] r[i]).started_at >= (#[trigger] r[j]).started_at,
        exists|found: Seq<AgentSession>|
            #![trigger session_views(found)]
            session_views(found) == loaded.1 && found.to_multiset() == r.to_multiset() && (forall|
                k: u64,
            | #[trigger]
                started_at(r, k) == started_at(found, k)),
        forall|id: Seq<char>| #[trigger]
            caches.contains_key(id) <==> loaded.0.contains_key(id) && exists|i: int|
                0 <= i < loaded.1.len() && (#[trigger] loaded.1[i]).session_id == id,
        forall|id: Seq<char>| #[trigger]
            caches.contains_key(id) ==> caches[id] == loaded.0[id],
{
    let found = choose|found: Seq<AgentSession>| #[trigger]
        is_stable_sorting(found, r) && session_views(found) == loaded.1 && caches
            == crate::report::kept_caches(loaded.0, found);
    law_sorting_keeps_entries(found, r);
    assert forall|i: int, j: int| 0 <= i < j < r.len() implies (#[trigger] r[i]).started_at >= (
    #[trigger] r[j]).started_at by {
        assert(r[i].rank() >= r[j].rank());
    }
    assert(session_views(found).len() == found.len());
    assert forall|k: u64| #[trigger] started_at(r, k) == started_at(found, k) by {
        lemma_rank_filter(r, k);
        lemma_rank_filter(found, k);
        assert(crate::order::with_rank(r, k) == crate::order::with_rank(found, k));
    }
    assert forall|id: Seq<char>| #[trigger] caches.contains_key(id) <==> loaded.0.contains_key(id)
        && exists|i: int| 0 <= i < loaded.1.len() && (#[trigger] loaded.1[i]).session_id == id by {
        let ids = session_ids(found);
        if ids.contains(id) {
            let i = choose|i: int| 0 <= i < ids.len() && ids[i] == id;
            assert(loaded.1[i] == found[i]@);
            assert(loaded.1[i].session_id == id);
        }
        if exists|i: int| 0 <= i < loaded.1.len() && (#[trigger] loaded.1[i]).session_id == id {
            let i = choose|i: int|
                0 <= i < loaded.1.len() && (#[trigger] loaded.1[i]).session_id == id;
            assert(loaded.1[i] == found[i]@);
            assert(ids[i] == id);
        }
    }
}

/// What is known of a session is what was noted of it, and nothing where none
/// was; what stays known of sessions is what was known of those that are kept.
pub proof fn law_known_is_what_was_noted(
    caches: Map<Seq<char>, CacheView>,
    ids: Seq<Seq<char>>,
    id: Seq<char>,
    noted: CacheView,
)
    ensures
        known(caches.insert(id, noted), id) == noted,
        !caches.dom().contains(id) ==> known(caches, id) == no_cache(),
        retained(caches, ids).dom().contains(id) <==> caches.dom().contains(id) && ids.contains(id),
        retained(caches, ids).dom().contains(id) ==> retained(caches, ids)[id] == caches[id],
        no_cache().offset == 0 && no_cache().total_input == 0 && no_cache().total_output == 0
            && no_cache().total_cache_read == 0 && no_cache().total_cache_create == 0
            && no_cache().context_tokens == 0 && no_cache().turn_count == 0
            && no_cache().compaction_count == 0 && no_cache().last_activity is None,
        no_cache().model.len() == 0 && no_cache().effort.len() == 0
            && no_cache().current_task.len() == 0 && no_cache().initial_prompt.len() == 0
            && no_cache().first_assistant_text.len() == 0 && no_cache().token_history.len() == 0
            && no_cache().context_history.len() == 0 && no_cache().tool_calls.len() == 0
            && no_cache().chat_messages.len() == 0 && no_cache().file_accesses.len() == 0,
{
}

/// The sessions of a plan are loaded each from what was known of it: where the
/// names of the sessions differ, each that can be looked at is reported with
/// what the look finds, which is then known of it; one that cannot is not
/// reported, and nothing is known of it. What is known of others stays.
pub proof fn law_kimi_sessions_are_loaded<P: HostPolicy>(
    policy: P,
    caches: Map<Seq<char>, CacheView>,
    sessions: Seq<KnownSession>,
    plan: Seq<PlannedSession>,
    model_default: Seq<char>,
    shared: SharedProcessData,
    now_ms: u64,
    root: Seq<char>,
    k: int,
)
    requires
        forall|i: int| 0 <= i < plan.len() ==> (#[trigger] plan[i]).index < sessions.len(),
        forall|i: int, j: int|
            0 <= i < j < plan.len() ==> sessions[(#[trigger] plan[i]).index as int].entry.session_id@
                != sessions[(#[trigger] plan[j]).index as int].entry.session_id@,
    ensures
        ({
            let r = loaded(policy, caches, sessions, plan, model_default, shared, now_ms, root);
            &&& 0 <= k < plan.len() ==> ({
                let s = sessions[plan[k].index as int];
                let id = s.entry.session_id@;
                let before = known(caches, id);
                let after = looked::<P, Wire>(policy, before, s.log);
                &&& look_fits::<P, Wire>(policy, before, s.log) ==> r.0.contains_key(id) && r.0[id]
                    == after && r.1.contains(
                    kimi_session(after, s, plan[k].pid, model_default, shared, now_ms, root),
                )
                &&& !look_fits::<P, Wire>(policy, before, s.log) ==> !r.0.contains_key(id)
                    && forall|a: int| 0 <= a < r.1.len() ==> (#[trigger] r.1[a]).session_id != id
            })
            &&& r.1.len() <= plan.len()
            &&& forall|a: int|
                0 <= a < r.1.len() ==> exists|i: int|
                    0 <= i < plan.len() && sessions[(#[trigger] plan[i]).index as int].entry.session_id@
                        == (#[trigger] r.1[a]).session_id
            &&& forall|id: Seq<char>|
                (forall|i: int|
                    0 <= i < plan.len()
                        ==> sessions[(#[trigger] plan[i]).index as int].entry.session_id@ != id)
                    ==> #[trigger] r.0.contains_key(id) == caches.contains_key(id) && (
                r.0.contains_key(id) ==> r.0[id] == caches[id])
        }),
    decreases plan.len(),
{
    if plan.len() > 0 {
        let most = plan.drop_last();
        let n = plan.len() - 1;
        assert forall|i: int| 0 <= i < most.len() implies (#[trigger] most[i]).index
            < sessions.len() by {
            assert(plan[i].index < sessions.len());
        }
        assert forall|i: int, j: int| 0 <= i < j < most.len() implies sessions[(
        #[trigger] most[i]).index as int].entry.session_id@ != sessions[(
        #[trigger] most[j]).index as int].entry.session_id@ by {
            assert(plan[i] == most[i] && plan[j] == most[j]);
        }
        law_kimi_sessions_are_loaded(
            policy,
            caches,
            sessions,
            most,
            model_default,
            shared,
            now_ms,
            root,
            k,
        );
        let m = loaded(policy, caches, sessions, most, model_default, shared, now_ms, root);
        let r = loaded(policy, caches, sessions, plan, model_default, shared, now_ms, root);
        let last = sessions[plan.last().index as int];
        let last_id = last.entry.session_id@;
        assert(plan[n] == plan.last());
        assert forall|i: int| 0 <= i < most.len() implies sessions[(
        #[trigger] most[i]).index as int].entry.session_id@ != last_id by {
            assert(plan[i] == most[i]);
            assert(sessions[plan[i].index as int].entry.session_id@
                != sessions[plan[n].index as int].entry.session_id@);
        }
        assert(m.0.contains_key(last_id) == caches.contains_key(last_id));
        assert(known(m.0, last_id) == known(caches, last_id));
        assert forall|a: int| 0 <= a < m.1.len() implies (#[trigger] m.1[a]).session_id
            != last_id by {
            let i = choose|i: int|
                0 <= i < most.len() && sessions[(#[trigger] most[i]).index as int].entry.session_id@
                    == m.1[a].session_id;
            assert(sessions[most[i].index as int].entry.session_id@ != last_id);
        }
        assert forall|a: int| 0 <= a < r.1.len() implies exists|i: int|
            0 <= i < plan.len() && sessions[(#[trigger] plan[i]).index as int].entry.session_id@
                == (#[trigger] r.1[a]).session_id by {
            if a < m.1.len() {
                assert(r.1[a] == m.1[a]);
                let i = choose|i: int|
                    0 <= i < most.len()
                        && sessions[(#[trigger] most[i]).index as int].entry.session_id@
                        == m.1[a].session_id;
                assert(plan[i] == most[i]);
            } else {
                assert(sessions[plan[n].index as int].entry.session_id@ == r.1[a].session_id);
            }
        }
        if 0 <= k < n {
            let s = sessions[plan[k].index as int];
            let id = s.entry.session_id@;
            assert(most[k] == plan[k]);
            assert(id != last_id);
            let before = known(caches, id);
            let after = looked::<P, Wire>(policy, before, s.log);
            let v = kimi_session(after, s, plan[k].pid, model_default, shared, now_ms, root);
            if look_fits::<P, Wire>(policy, before, s.log) {
                let a = choose|a: int| 0 <= a < m.1.len() && m.1[a] == v;
                assert(r.1[a] == v);
            } else {
                assert forall|a: int| 0 <= a < r.1.len() implies (#[trigger] r.1[a]).session_id
                    != id by {
                    if a < m.1.len() {
                        assert(m.1[a] == r.1[a]);
                    }
                }
            }
        } else if k == n {
            if look_fits::<P, Wire>(policy, known(caches, last_id), last.log) {
                assert(r.1[m.1.len() as int] == kimi_session(
                    looked::<P, Wire>(policy, known(caches, last_id), last.log),
                    last,
                    plan[k].pid,
                    model_default,
                    shared,
                    now_ms,
                    root,
                ));
            }
        }
        assert forall|id: Seq<char>|
            (forall|i: int|
                0 <= i < plan.len()
                    ==> sessions[(#[trigger] plan[i]).index as int].entry.session_id@
                    != id) implies #[trigger] r.0.contains_key(id) == caches.contains_key(id) && (
        r.0.contains_key(id) ==> r.0[id] == caches[id]) by {
            assert(sessions[plan[n].index as int].entry.session_id@ != id);
            assert forall|i: int| 0 <= i < most.len() implies sessions[(
            #[trigger] most[i]).index as int].entry.session_id@ != id by {
                assert(plan[i] == most[i]);
            }
            assert(m.0.contains_key(id) == caches.contains_key(id));
        }
    }
}

} // verus!
