//! What the collectors have in common when they report a session.
use crate::cache::CacheView;
use crate::caches::retained;
use crate::caches::SessionCaches;
use crate::model::one_task;
use crate::model::session_views;
use crate::model::AgentSession;
use crate::model::SessionStatus;
use crate::model::SessionView;
use crate::order::is_stable_sorting;
use crate::order::sort_descending;
use crate::process::ProcInfo;
use crate::text::strs;
use std::collections::HashMap;
use vstd::prelude::*;

verus! {

broadcast use vstd::std_specs::hash::group_hash_axioms;

/// A session whose log was changed this many seconds ago is shown no more,
/// unless a process is known to run it.
pub const SESSION_FRESH_SECS: u64 = 300;

/// A session that was active this many seconds ago is idle.
pub const ACTIVITY_FRESH_SECS: u64 = 30;

/// The load, in thousandths of a percent, over which a process is at work.
pub const ACTIVE_LOAD: u64 = 5_000;

/// Whether the newest activity is recent; times are in milliseconds from 1970.
pub open spec fn is_recent(last_activity: Option<u64>, now_ms: u64) -> bool {
    match last_activity {
        Some(t) => now_ms >= t && (now_ms - t) / 1000 < ACTIVITY_FRESH_SECS,
        None => false,
    }
}

/// Whether the newest activity is recent.
pub fn is_recently_active(last_activity: Option<u64>, now_ms: u64) -> (r: bool)
    ensures
        r == is_recent(last_activity, now_ms),
{
    match last_activity {
        Some(t) => now_ms >= t && (now_ms - t) / 1000 < ACTIVITY_FRESH_SECS,
        None => false,
    }
}

/// The memory of a process in megabytes, or 0 where it is not known.
pub open spec fn memory_mb(info: Map<u32, ProcInfo>, pid: u32) -> u64 {
    if info.contains_key(pid) {
        info[pid].rss_kb / 1024
    } else {
        0
    }
}

/// The memory of a process in megabytes, or 0 where it is not known.
pub fn memory_mb_of(process_info: &HashMap<u32, ProcInfo>, pid: u32) -> (r: u64)
    ensures
        r == memory_mb(process_info@, pid),
{
    match process_info.get(&pid) {
        Some(p) => p.rss_kb / 1024,
        None => 0,
    }
}

/// What is shown as the current task: the task or, where there is none, what
/// the session waits for; `otherwise` where it does not wait for input.
pub open spec fn shown_tasks(
    task: Seq<char>,
    status: SessionStatus,
    otherwise: Seq<char>,
) -> Seq<Seq<char>> {
    if task.len() > 0 {
        seq![task]
    } else if status == SessionStatus::Waiting {
        seq!["waiting for input"@]
    } else {
        seq![otherwise]
    }
}

/// What is shown as the current task.
pub fn tasks_of(task: &str, status: SessionStatus, otherwise: &str) -> (r: Vec<String>)
    ensures
        strs(r@) == shown_tasks(task@, status, otherwise@),
{
    if !task.is_empty() {
        one_task(task)
    } else if status == SessionStatus::Waiting {
        one_task("waiting for input")
    } else {
        one_task(otherwise)
    }
}

/// The identifiers of the sessions.
pub open spec fn session_ids(sessions: Seq<AgentSession>) -> Seq<Seq<char>> {
    sessions.map_values(|s: AgentSession| s.session_id@)
}

/// What stays known once the sessions are shown.
pub open spec fn kept_caches(
    caches: Map<Seq<char>, CacheView>,
    sessions: Seq<AgentSession>,
) -> Map<Seq<char>, CacheView> {
    retained(caches, session_ids(sessions))
}

/// Whether `r` and `caches` are the report of the sessions that were loaded,
/// the newest first, and what stays known once they are shown; `loaded` is
/// what was known, and what is shown of each session, in the order of loading.
pub open spec fn is_report(
    r: Seq<AgentSession>,
    caches: Map<Seq<char>, CacheView>,
    loaded: (Map<Seq<char>, CacheView>, Seq<SessionView>),
) -> bool {
    exists|found: Seq<AgentSession>| #[trigger]
        is_stable_sorting(found, r) && session_views(found) == loaded.1 && caches == kept_caches(
            loaded.0,
            found,
        )
}

/// Forgets the sessions that are not shown, and sorts those that are, the
/// newest first.
pub fn finish_report(caches: &mut SessionCaches, sessions: Vec<AgentSession>) -> (r: Vec<
    AgentSession,
>)
    ensures
        is_stable_sorting(sessions@, r@),
        final(caches)@ == kept_caches(old(caches)@, sessions@),
{
    let mut ids: Vec<String> = Vec::new();
    let mut i: usize = 0;
    while i < sessions.len()
        invariant
            i <= sessions@.len(),
            strs(ids@) == session_ids(sessions@).take(i as int),
        decreases sessions@.len() - i,
    {
        let ghost before = strs(ids@);
        let id = sessions[i].session_id.clone();
        ids.push(id);
        assert(strs(ids@) =~= before.push(id@));
        assert(session_ids(sessions@).take(i + 1) =~= before.push(session_ids(sessions@)[i as int]));
        i += 1;
    }
    assert(session_ids(sessions@).take(i as int) =~= session_ids(sessions@));
    caches.retain(&ids);
    sort_descending(sessions)
}

} // verus!
