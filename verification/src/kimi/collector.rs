//! The collector of kimi-code sessions.
//!
//! A collector is asked twice: which sessions are to be shown
//! ([`KimiCollector::plan_sessions`]), and, once the caller has read their
//! logs and titles, for the report ([`KimiCollector::collect_sessions`]).
use crate::cache::resumed;
use crate::cache::CacheView;
use crate::caches::known;
use crate::caches::SessionCaches;
use crate::kimi::config::is_kimi_root;
use crate::kimi::config::RootFacts;
use crate::kimi::index::ancestor_workdirs;
use crate::kimi::index::claimant;
use crate::kimi::index::current_session_ids;
use crate::kimi::index::is_current;
use crate::kimi::index::is_current_id;
use crate::kimi::index::launch_dirs;
use crate::kimi::index::law_one_current_session_per_workdir;
use crate::kimi::index::pid_of_workdir;
use crate::kimi::index::KnownSession;
use crate::kimi::wire::Wire;
use crate::model::copy_chats;
use crate::model::copy_counts;
use crate::model::copy_files;
use crate::model::copy_tools;
use crate::model::session_views;
use crate::model::AgentSession;
use crate::model::ContextPercent;
use crate::model::SessionStatus;
use crate::model::SessionView;
use crate::order::is_stable_sorting;
use crate::policy::HostPolicy;
use crate::process::active_below;
use crate::process::agent_pids_outside;
use crate::process::ancestors;
use crate::process::binary_name;
use crate::process::children_view;
use crate::process::cmd_first_token_has_binary;
use crate::process::collect_children;
use crate::process::has_active_descendant;
use crate::process::is_agent;
use crate::process::project_name_of;
use crate::process::project_of;
use crate::process::CommandFilter;
use crate::process::ProcInfo;
use crate::process::SharedProcessData;
use crate::report::finish_report;
use crate::report::is_recent;
use crate::report::is_report;
use crate::report::is_recently_active;
use crate::report::memory_mb;
use crate::report::memory_mb_of;
use crate::report::shown_tasks;
use crate::report::tasks_of;
use crate::report::ACTIVE_LOAD;
use crate::report::SESSION_FRESH_SECS;
use crate::tailing::look;
use crate::tailing::look_fits;
use crate::tailing::looked;
use crate::text::contains_string;
use crate::text::strs;
use std::collections::HashMap;
use vstd::prelude::*;

verus! {

broadcast use vstd::std_specs::hash::group_hash_axioms;

/// The context window of the model; the log does not name it.
pub const KIMI_CONTEXT_WINDOW: u64 = 262_144;

/// A session that is to be shown.
#[derive(Clone, Copy, PartialEq, Eq, Structural, Debug)]
pub struct PlannedSession {
    /// Its place among the known sessions.
    pub index: usize,
    /// The process it belongs to, or 0.
    pub pid: u32,
}

/// The command lines of kimi-code. The agent rewrites its own, so the name of
/// the binary tells it from a command that merely mentions it.
pub struct KimiCommand {

}

impl CommandFilter for KimiCommand {
    open spec fn wants(cmd: Seq<char>) -> bool {
        binary_name(cmd) == "kimi-code"@
    }

    fn wants_command(cmd: &str) -> (r: bool) {
        cmd_first_token_has_binary(cmd, "kimi-code")
    }
}

/// Whether `pid` is a kimi-code process that is not below `self_pid`.
pub open spec fn is_kimi_process(info: Map<u32, ProcInfo>, self_pid: u32, pid: u32) -> bool {
    is_agent::<KimiCommand>(info, pid) && !ancestors(info, pid).contains(self_pid)
}

/// Whether the agent runs at all: its server does, or another of its
/// processes.
pub open spec fn is_running(
    info: Map<u32, ProcInfo>,
    pids: Seq<u32>,
    server_pid: Option<u32>,
) -> bool {
    (server_pid is Some && info.contains_key(server_pid->0)) || pids.len() > 0
}

/// The directories from which the processes may have been launched.
pub open spec fn live_dirs(
    pids: Seq<u32>,
    info: Map<u32, ProcInfo>,
    cwds: Map<u32, String>,
) -> Seq<Seq<char>>
    decreases pids.len(),
{
    if pids.len() == 0 {
        Seq::empty()
    } else {
        launch_dirs(info, cwds, pids[0]) + live_dirs(pids.drop_first(), info, cwds)
    }
}

/// The process that a session is shown with: one launched from its work
/// directory, else the server, else none.
pub open spec fn attached_pid(
    session: KnownSession,
    pids: Seq<u32>,
    server_pid: Option<u32>,
    info: Map<u32, ProcInfo>,
    cwds: Map<u32, String>,
) -> u32 {
    let server = match server_pid {
        Some(p) => p,
        None => 0,
    };
    let dir = session.entry.work_dir@;
    if dir.len() == 0 {
        server
    } else {
        match claimant(pids, info, cwds, dir) {
            Some(p) => p,
            None => server,
        }
    }
}

/// Whether the session at `i` is shown: its directory is there, and it is the
/// current one of a live work directory or was active a short while ago.
pub open spec fn is_shown(sessions: Seq<KnownSession>, live: Seq<Seq<char>>, i: int) -> bool {
    &&& sessions[i].is_dir
    &&& is_current_id(sessions, live, sessions[i].entry.session_id@)
        || sessions[i].wire_age_secs < SESSION_FRESH_SECS
}

/// The first `n` sessions that are shown.
pub open spec fn shown_among(
    sessions: Seq<KnownSession>,
    pids: Seq<u32>,
    server_pid: Option<u32>,
    info: Map<u32, ProcInfo>,
    cwds: Map<u32, String>,
    n: nat,
) -> Seq<PlannedSession>
    decreases n,
{
    if n == 0 {
        Seq::empty()
    } else {
        let i = n - 1;
        let rest = shown_among(sessions, pids, server_pid, info, cwds, i as nat);
        if is_shown(sessions, live_dirs(pids, info, cwds), i) {
            rest.push(
                PlannedSession {
                    index: i as usize,
                    pid: attached_pid(sessions[i], pids, server_pid, info, cwds),
                },
            )
        } else {
            rest
        }
    }
}

/// The sessions that are shown: none where the agent does not run.
pub open spec fn planned(
    sessions: Seq<KnownSession>,
    pids: Seq<u32>,
    server_pid: Option<u32>,
    info: Map<u32, ProcInfo>,
    cwds: Map<u32, String>,
) -> Seq<PlannedSession> {
    if is_running(info, pids, server_pid) {
        shown_among(sessions, pids, server_pid, info, cwds, sessions.len())
    } else {
        Seq::empty()
    }
}

/// What a session is doing.
pub open spec fn kimi_status(
    c: CacheView,
    pid: u32,
    shared: SharedProcessData,
    now_ms: u64,
) -> SessionStatus {
    if active_below(pid, shared.children_map@, shared.process_info@, ACTIVE_LOAD)
        || c.current_task.len() > 0 {
        SessionStatus::Executing
    } else if is_recent(c.last_activity, now_ms) {
        SessionStatus::Thinking
    } else {
        SessionStatus::Waiting
    }
}

/// What is shown of a session of which `c` is known.
pub open spec fn kimi_session(
    c: CacheView,
    session: KnownSession,
    pid: u32,
    model_default: Seq<char>,
    shared: SharedProcessData,
    now_ms: u64,
    config_root: Seq<char>,
) -> SessionView {
    let status = kimi_status(c, pid, shared, now_ms);
    SessionView {
        agent_cli: "kimi"@,
        pid,
        session_id: session.entry.session_id@,
        cwd: session.entry.work_dir@,
        project_name: project_of(session.entry.work_dir@),
        started_at: session.changed(),
        status,
        model: if c.model.len() > 0 {
            c.model
        } else {
            model_default
        },
        effort: Seq::empty(),
        context_percent: ContextPercent::Tokens {
            used: c.context_tokens,
            window: KIMI_CONTEXT_WINDOW,
        },
        total_input_tokens: c.total_input,
        total_output_tokens: c.total_output,
        total_cache_read: c.total_cache_read,
        total_cache_create: c.total_cache_create,
        turn_count: c.turn_count,
        current_tasks: shown_tasks(c.current_task, status, "thinking..."@),
        mem_mb: memory_mb(shared.process_info@, pid),
        version: Seq::empty(),
        git_branch: Seq::empty(),
        git_added: 0,
        git_modified: 0,
        token_history: c.token_history,
        context_history: c.context_history,
        compaction_count: 0,
        context_window: KIMI_CONTEXT_WINDOW,
        subagents: Seq::empty(),
        mem_file_count: 0,
        mem_line_count: 0,
        children: children_view(pid, shared),
        initial_prompt: if session.title@.len() > 0 {
            session.title@
        } else {
            c.initial_prompt
        },
        first_assistant_text: c.first_assistant_text,
        chat_messages: c.chat_messages,
        tool_calls: c.tool_calls,
        pending_since_ms: 0,
        thinking_since_ms: 0,
        file_accesses: c.file_accesses,
        config_root,
    }
}

/// What is known and what is shown once the sessions of the plan are loaded,
/// one after another. One that cannot be loaded is not shown, and forgotten.
pub open spec fn loaded<P: HostPolicy>(
    policy: P,
    caches: Map<Seq<char>, CacheView>,
    sessions: Seq<KnownSession>,
    plan: Seq<PlannedSession>,
    model_default: Seq<char>,
    shared: SharedProcessData,
    now_ms: u64,
    config_root: Seq<char>,
) -> (Map<Seq<char>, CacheView>, Seq<SessionView>)
    decreases plan.len(),
{
    if plan.len() == 0 {
        (caches, Seq::empty())
    } else {
        let (most, shown) = loaded(
            policy,
            caches,
            sessions,
            plan.drop_last(),
            model_default,
            shared,
            now_ms,
            config_root,
        );
        let session = sessions[plan.last().index as int];
        let id = session.entry.session_id@;
        if look_fits::<P, Wire>(policy, known(most, id), session.log) {
            let after = looked::<P, Wire>(policy, known(most, id), session.log);
            (
                most.insert(id, after),
                shown.push(
                    kimi_session(
                        after,
                        session,
                        plan.last().pid,
                        model_default,
                        shared,
                        now_ms,
                        config_root,
                    ),
                ),
            )
        } else {
            (most.remove(id), shown)
        }
    }
}

/// The directories from which the processes may have been launched.
fn live_workdirs(
    pids: &Vec<u32>,
    process_info: &HashMap<u32, ProcInfo>,
    cwds: &HashMap<u32, String>,
) -> (r: Vec<String>)
    ensures
        strs(r@) == live_dirs(pids@, process_info@, cwds@),
{
    let ghost info = process_info@;
    let mut out: Vec<String> = Vec::new();
    let mut i: usize = 0;
    assert(pids@.skip(0) =~= pids@);
    assert(strs(out@) + live_dirs(pids@, info, cwds@) =~= live_dirs(pids@, info, cwds@));
    while i < pids.len()
        invariant
            i <= pids@.len(),
            info == process_info@,
            strs(out@) + live_dirs(pids@.skip(i as int), info, cwds@) == live_dirs(
                pids@,
                info,
                cwds@,
            ),
        decreases pids@.len() - i,
    {
        let ghost before = out@;
        let ghost rest = pids@.skip(i as int);
        assert(rest.drop_first() =~= pids@.skip(i + 1));
        let mut dirs = ancestor_workdirs(pids[i], process_info, cwds);
        let ghost added = dirs@;
        out.append(&mut dirs);
        assert(strs(out@) =~= strs(before) + strs(added));
        assert(strs(out@) + live_dirs(pids@.skip(i + 1), info, cwds@) =~= strs(before) + live_dirs(
            rest,
            info,
            cwds@,
        ));
        i += 1;
    }
    assert(pids@.skip(i as int) =~= Seq::empty());
    assert(strs(out@) =~= live_dirs(pids@, info, cwds@));
    out
}

/// The process that a session is shown with.
fn attach_pid(
    session: &KnownSession,
    live_pids: &Vec<u32>,
    server_pid: Option<u32>,
    process_info: &HashMap<u32, ProcInfo>,
    cwds: &HashMap<u32, String>,
) -> (r: u32)
    ensures
        r == attached_pid(*session, live_pids@, server_pid, process_info@, cwds@),
{
    let server: u32 = match server_pid {
        Some(p) => p,
        None => 0,
    };
    let dir = session.entry.work_dir.as_str();
    if dir.is_empty() {
        server
    } else {
        match pid_of_workdir(live_pids, process_info, cwds, dir) {
            Some(p) => p,
            None => server,
        }
    }
}

/// What a session is doing.
fn derive_status(
    has_task: bool,
    last_activity: Option<u64>,
    pid: u32,
    shared: &SharedProcessData,
    now_ms: u64,
) -> (r: SessionStatus)
    ensures
        forall|c: CacheView|
            has_task == (c.current_task.len() > 0) && last_activity == c.last_activity ==> r
                == #[trigger] kimi_status(c, pid, *shared, now_ms),
{
    if has_active_descendant(pid, &shared.children_map, &shared.process_info, ACTIVE_LOAD)
        || has_task {
        SessionStatus::Executing
    } else if is_recently_active(last_activity, now_ms) {
        SessionStatus::Thinking
    } else {
        SessionStatus::Waiting
    }
}

/// Collects the sessions of kimi-code.
pub struct KimiCollector {
    /// The directory of the configuration, as it is shown.
    pub config_root: String,
    /// What is known of the sessions.
    pub cache: SessionCaches,
}

impl KimiCollector {
    /// A collector that knows of no session yet.
    pub fn new(config_root: String) -> (r: KimiCollector)
        ensures
            r.config_root@ == config_root@,
            r.cache@ == Map::<Seq<char>, CacheView>::empty(),
    {
        KimiCollector { config_root, cache: SessionCaches::new() }
    }

    /// The kimi-code processes that are not below `self_pid`.
    pub fn find_kimi_pids(process_info: &HashMap<u32, ProcInfo>, self_pid: u32) -> (r: Vec<u32>)
        ensures
            r@.no_duplicates(),
            forall|pid: u32| #[trigger]
                r@.contains(pid) <==> is_kimi_process(process_info@, self_pid, pid),
    {
        agent_pids_outside::<KimiCommand>(process_info, self_pid)
    }

    /// The sessions to show, with the processes they belong to.
    pub fn plan_sessions(
        sessions: &Vec<KnownSession>,
        live_pids: &Vec<u32>,
        server_pid: Option<u32>,
        process_info: &HashMap<u32, ProcInfo>,
        cwds: &HashMap<u32, String>,
    ) -> (r: Vec<PlannedSession>)
        ensures
            r@ == planned(sessions@, live_pids@, server_pid, process_info@, cwds@),
    {
        let ghost info = process_info@;
        let mut out: Vec<PlannedSession> = Vec::new();
        let server_lives = match server_pid {
            Some(p) => process_info.contains_key(&p),
            None => false,
        };
        if !server_lives && live_pids.len() == 0 {
            return out;
        }
        let live = live_workdirs(live_pids, process_info, cwds);
        let current = current_session_ids(sessions, &live);
        let mut i: usize = 0;
        while i < sessions.len()
            invariant
                i <= sessions@.len(),
                info == process_info@,
                strs(live@) == live_dirs(live_pids@, info, cwds@),
                forall|id: Seq<char>| #[trigger]
                    strs(current@).contains(id) <==> is_current_id(sessions@, strs(live@), id),
                out@ == shown_among(sessions@, live_pids@, server_pid, info, cwds@, i as nat),
            decreases sessions@.len() - i,
        {
            let session = &sessions[i];
            if session.is_dir && (contains_string(&current, session.entry.session_id.as_str())
                || session.wire_age_secs < SESSION_FRESH_SECS) {
                let pid = attach_pid(session, live_pids, server_pid, process_info, cwds);
                out.push(PlannedSession { index: i, pid });
            }
            i += 1;
        }
        out
    }

    /// Where to go on reading the log of a session, by the file it is and the
    /// bytes it holds now.
    pub fn resume_offset(&self, session_id: &str, identity: (u64, u64), len: u64) -> (r: u64)
        ensures
            r == resumed(known(self.cache@, session_id@), identity, len).offset,
    {
        self.cache.resume_offset(session_id, identity, len)
    }

    /// What is shown of a session, by the new part of its log, where it has
    /// one, and its title. There is no answer where the new part is not given
    /// or a count of it would outgrow its width; the session is then
    /// forgotten.
    pub fn load_session<P: HostPolicy>(
        &mut self,
        policy: &P,
        session: &KnownSession,
        pid: u32,
        model_default: &str,
        shared: &SharedProcessData,
        now_ms: u64,
    ) -> (r: Option<AgentSession>)
        ensures
            final(self).config_root@ == old(self).config_root@,
            ({
                let id = session.entry.session_id@;
                let before = known(old(self).cache@, id);
                let after = looked::<P, Wire>(*policy, before, session.log);
                match r {
                    Some(s) => {
                        &&& look_fits::<P, Wire>(*policy, before, session.log)
                        &&& s@ == kimi_session(
                            after,
                            *session,
                            pid,
                            model_default@,
                            *shared,
                            now_ms,
                            old(self).config_root@,
                        )
                        &&& final(self).cache@ == old(self).cache@.insert(id, after)
                    },
                    None => {
                        &&& !look_fits::<P, Wire>(*policy, before, session.log)
                        &&& final(self).cache@ == old(self).cache@.remove(id)
                    },
                }
            }),
    {
        let id = session.entry.session_id.as_str();
        let mut cache = self.cache.take(id);
        if !look::<P, Wire>(policy, &mut cache, &session.log) {
            return None;
        }
        let ghost c = cache@;
        let model = if !cache.model.as_str().is_empty() {
            cache.model.clone()
        } else {
            model_default.to_owned()
        };
        let status = derive_status(
            !cache.current_task.as_str().is_empty(),
            cache.last_activity,
            pid,
            shared,
            now_ms,
        );
        assert(status == kimi_status(c, pid, *shared, now_ms));
        let initial_prompt = if !session.title.as_str().is_empty() {
            session.title.clone()
        } else {
            cache.initial_prompt.clone()
        };
        let s = AgentSession {
            agent_cli: "kimi",
            pid,
            session_id: session.entry.session_id.clone(),
            cwd: session.entry.work_dir.clone(),
            project_name: project_name_of(session.entry.work_dir.as_str()),
            started_at: session.changed_ms(),
            status,
            model,
            effort: String::new(),
            context_percent: ContextPercent::Tokens {
                used: cache.context_tokens,
                window: KIMI_CONTEXT_WINDOW,
            },
            total_input_tokens: cache.total_input,
            total_output_tokens: cache.total_output,
            total_cache_read: cache.total_cache_read,
            total_cache_create: cache.total_cache_create,
            turn_count: cache.turn_count,
            current_tasks: tasks_of(cache.current_task.as_str(), status, "thinking..."),
            mem_mb: memory_mb_of(&shared.process_info, pid),
            version: String::new(),
            git_branch: String::new(),
            git_added: 0,
            git_modified: 0,
            token_history: copy_counts(&cache.token_history),
            context_history: copy_counts(&cache.context_history),
            compaction_count: 0,
            context_window: KIMI_CONTEXT_WINDOW,
            subagents: Vec::new(),
            mem_file_count: 0,
            mem_line_count: 0,
            children: collect_children(pid, shared),
            initial_prompt,
            first_assistant_text: cache.first_assistant_text.clone(),
            chat_messages: copy_chats(&cache.chat_messages),
            tool_calls: copy_tools(&cache.tool_calls),
            pending_since_ms: 0,
            thinking_since_ms: 0,
            file_accesses: copy_files(&cache.file_accesses),
            config_root: self.config_root.clone(),
        };
        assert(s@ =~= kimi_session(
            c,
            *session,
            pid,
            model_default@,
            *shared,
            now_ms,
            self.config_root@,
        ));
        self.cache.put(id, cache);
        assert(self.cache@ =~= old(self).cache@.insert(id@, c));
        Some(s)
    }

    /// Loads the sessions of the plan, in its order.
    fn load_sessions<P: HostPolicy>(
        &mut self,
        policy: &P,
        sessions: &Vec<KnownSession>,
        plan: &Vec<PlannedSession>,
        model_default: &str,
        shared: &SharedProcessData,
        now_ms: u64,
    ) -> (r: Vec<AgentSession>)
        requires
            forall|k: int| 0 <= k < plan@.len() ==> (#[trigger] plan@[k]).index < sessions@.len(),
        ensures
            final(self).config_root@ == old(self).config_root@,
            (final(self).cache@, session_views(r@)) == loaded(
                *policy,
                old(self).cache@,
                sessions@,
                plan@,
                model_default@,
                *shared,
                now_ms,
                old(self).config_root@,
            ),
    {
        let ghost caches = self.cache@;
        let ghost root = self.config_root@;
        let mut out: Vec<AgentSession> = Vec::new();
        let mut k: usize = 0;
        assert(plan@.take(0) =~= Seq::empty());
        assert(session_views(out@) =~= Seq::empty());
        while k < plan.len()
            invariant
                k <= plan@.len(),
                forall|i: int|
                    0 <= i < plan@.len() ==> (#[trigger] plan@[i]).index < sessions@.len(),
                self.config_root@ == root,
                (self.cache@, session_views(out@)) == loaded(
                    *policy,
                    caches,
                    sessions@,
                    plan@.take(k as int),
                    model_default@,
                    *shared,
                    now_ms,
                    root,
                ),
            decreases plan@.len() - k,
        {
            let ghost before = session_views(out@);
            assert(plan@.take(k + 1).drop_last() =~= plan@.take(k as int));
            assert(plan@.take(k + 1).last() == plan@[k as int]);
            let planned = plan[k];
            assert(plan@[k as int].index < sessions@.len());
            let session = &sessions[planned.index];
            if let Some(s) = self.load_session(
                policy,
                session,
                planned.pid,
                model_default,
                shared,
                now_ms,
            ) {
                out.push(s);
                assert(session_views(out@) =~= before.push(s@));
            }
            k += 1;
        }
        assert(plan@.take(k as int) =~= plan@);
        out
    }

    /// The report of the sessions, the newest first; what is known of those
    /// that are not in it is forgotten. Where there is no directory of
    /// sessions, or the agent does not run, there is nothing to report, and
    /// nothing is forgotten.
    pub fn collect_sessions<P: HostPolicy>(
        &mut self,
        policy: &P,
        root: RootFacts,
        sessions: &Vec<KnownSession>,
        live_pids: &Vec<u32>,
        server_pid: Option<u32>,
        cwds: &HashMap<u32, String>,
        model_default: &str,
        shared: &SharedProcessData,
        now_ms: u64,
    ) -> (r: Vec<AgentSession>)
        ensures
            final(self).config_root@ == old(self).config_root@,
            !(root.is_root() && is_running(shared.process_info@, live_pids@, server_pid)) ==> r@
                == Seq::<AgentSession>::empty() && final(self).cache@ == old(self).cache@,
            root.is_root() && is_running(shared.process_info@, live_pids@, server_pid) ==> ({
                let plan = planned(
                    sessions@,
                    live_pids@,
                    server_pid,
                    shared.process_info@,
                    cwds@,
                );
                is_report(
                    r@,
                    final(self).cache@,
                    loaded(
                        *policy,
                        old(self).cache@,
                        sessions@,
                        plan,
                        model_default@,
                        *shared,
                        now_ms,
                        old(self).config_root@,
                    ),
                )
            }),
    {
        let server_lives = match server_pid {
            Some(p) => shared.process_info.contains_key(&p),
            None => false,
        };
        if !is_kimi_root(root) || (!server_lives && live_pids.len() == 0) {
            return Vec::new();
        }
        let plan = KimiCollector::plan_sessions(
            sessions,
            live_pids,
            server_pid,
            &shared.process_info,
            cwds,
        );
        proof {
            assert(sessions@.len() == sessions.len());
            lemma_shown_among(
                sessions@,
                live_pids@,
                server_pid,
                shared.process_info@,
                cwds@,
                sessions@.len(),
            );
        }
        let found = self.load_sessions(policy, sessions, &plan, model_default, shared, now_ms);
        let ghost unsorted = found@;
        let r = finish_report(&mut self.cache, found);
        assert(is_stable_sorting(unsorted, r@));
        r
    }
}

proof fn lemma_claimant(
    pids: Seq<u32>,
    info: Map<u32, ProcInfo>,
    cwds: Map<u32, String>,
    dir: Seq<char>,
)
    ensures
        match claimant(pids, info, cwds, dir) {
            Some(p) => pids.contains(p) && launch_dirs(info, cwds, p).contains(dir),
            None => !live_dirs(pids, info, cwds).contains(dir),
        },
    decreases pids.len(),
{
    if pids.len() > 0 {
        let first = launch_dirs(info, cwds, pids[0]);
        let rest = pids.drop_first();
        lemma_claimant(rest, info, cwds, dir);
        match claimant(pids, info, cwds, dir) {
            Some(p) => {
                if first.contains(dir) {
                    assert(pids[0] == p);
                } else {
                    let k = choose|k: int| 0 <= k < rest.len() && rest[k] == p;
                    assert(pids[k + 1] == p);
                }
            },
            None => {
                if live_dirs(pids, info, cwds).contains(dir) {
                    let all = live_dirs(pids, info, cwds);
                    let k = choose|k: int| 0 <= k < all.len() && all[k] == dir;
                    if k < first.len() {
                        assert(first[k] == dir);
                    } else {
                        assert(live_dirs(rest, info, cwds)[k - first.len()] == dir);
                    }
                }
            },
        }
    }
}

/// The current session of a live work directory is shown with a process that
/// was launched from that directory.
pub proof fn law_current_session_has_its_process(
    sessions: Seq<KnownSession>,
    pids: Seq<u32>,
    server_pid: Option<u32>,
    info: Map<u32, ProcInfo>,
    cwds: Map<u32, String>,
    i: int,
)
    requires
        is_current(sessions, live_dirs(pids, info, cwds), i),
    ensures
        ({
            let pid = attached_pid(sessions[i], pids, server_pid, info, cwds);
            &&& pids.contains(pid)
            &&& launch_dirs(info, cwds, pid).contains(sessions[i].entry.work_dir@)
        }),
{
    lemma_claimant(pids, info, cwds, sessions[i].entry.work_dir@);
}

proof fn lemma_shown_among(
    sessions: Seq<KnownSession>,
    pids: Seq<u32>,
    server_pid: Option<u32>,
    info: Map<u32, ProcInfo>,
    cwds: Map<u32, String>,
    n: nat,
)
    requires
        n <= sessions.len() <= usize::MAX,
    ensures
        ({
            let shown = shown_among(sessions, pids, server_pid, info, cwds, n);
            let live = live_dirs(pids, info, cwds);
            &&& forall|a: int|
                0 <= a < shown.len() ==> (#[trigger] shown[a]).index < n && is_shown(
                    sessions,
                    live,
                    shown[a].index as int,
                )
            &&& forall|a: int, b: int|
                0 <= a < b < shown.len() ==> (#[trigger] shown[a]).index < (
                #[trigger] shown[b]).index
        }),
    decreases n,
{
    if n > 0 {
        lemma_shown_among(sessions, pids, server_pid, info, cwds, (n - 1) as nat);
        let rest = shown_among(sessions, pids, server_pid, info, cwds, (n - 1) as nat);
        let shown = shown_among(sessions, pids, server_pid, info, cwds, n);
        assert forall|a: int| 0 <= a < shown.len() implies (#[trigger] shown[a]).index < n
            && is_shown(sessions, live_dirs(pids, info, cwds), shown[a].index as int) by {
            if a < rest.len() {
                assert(shown[a] == rest[a]);
            }
        }
        assert forall|a: int, b: int| 0 <= a < b < shown.len() implies (#[trigger] shown[a]).index
            < (#[trigger] shown[b]).index by {
            assert(shown[a] == rest[a]);
            if b < rest.len() {
                assert(shown[b] == rest[b]);
            }
        }
    }
}

/// No session is shown twice, and those that are stay in their order.
pub proof fn law_sessions_are_shown_once(
    sessions: Seq<KnownSession>,
    pids: Seq<u32>,
    server_pid: Option<u32>,
    info: Map<u32, ProcInfo>,
    cwds: Map<u32, String>,
)
    requires
        sessions.len() <= usize::MAX,
    ensures
        ({
            let shown = planned(sessions, pids, server_pid, info, cwds);
            forall|a: int, b: int|
                0 <= a < b < shown.len() ==> (#[trigger] shown[a]).index < (
                #[trigger] shown[b]).index
        }),
{
    lemma_shown_among(sessions, pids, server_pid, info, cwds, sessions.len());
}

/// What ran before in a live work directory stays hidden: of the sessions
/// there whose logs have not changed for a while, one at most is shown.
pub proof fn law_past_sessions_stay_hidden(
    sessions: Seq<KnownSession>,
    pids: Seq<u32>,
    server_pid: Option<u32>,
    info: Map<u32, ProcInfo>,
    cwds: Map<u32, String>,
    a: int,
    b: int,
)
    requires
        sessions.len() <= usize::MAX,
        forall|i: int, j: int|
            0 <= i < j < sessions.len() ==> (#[trigger] sessions[i]).entry.session_id@ != (
            #[trigger] sessions[j]).entry.session_id@,
        ({
            let shown = planned(sessions, pids, server_pid, info, cwds);
            &&& 0 <= a < shown.len()
            &&& 0 <= b < shown.len()
            &&& sessions[shown[a].index as int].wire_age_secs >= SESSION_FRESH_SECS
            &&& sessions[shown[b].index as int].wire_age_secs >= SESSION_FRESH_SECS
            &&& sessions[shown[a].index as int].entry.work_dir@
                == sessions[shown[b].index as int].entry.work_dir@
        }),
    ensures
        a == b,
{
    let shown = planned(sessions, pids, server_pid, info, cwds);
    let live = live_dirs(pids, info, cwds);
    lemma_shown_among(sessions, pids, server_pid, info, cwds, sessions.len());
    let i = shown[a].index as int;
    let j = shown[b].index as int;
    let x = choose|x: int| #[trigger]
        is_current(sessions, live, x) && sessions[x].entry.session_id@
            == sessions[i].entry.session_id@;
    let y = choose|y: int| #[trigger]
        is_current(sessions, live, y) && sessions[y].entry.session_id@
            == sessions[j].entry.session_id@;
    assert(is_shown(sessions, live, i) && is_shown(sessions, live, j));
    assert(x == i);
    assert(y == j);
    law_one_current_session_per_workdir(sessions, live, i, j);
}

proof fn lemma_loaded<P: HostPolicy>(
    policy: P,
    caches: Map<Seq<char>, CacheView>,
    sessions: Seq<KnownSession>,
    plan: Seq<PlannedSession>,
    model_default: Seq<char>,
    shared: SharedProcessData,
    now_ms: u64,
    config_root: Seq<char>,
)
    requires
        forall|i: int, j: int|
            0 <= i < j < sessions.len() ==> (#[trigger] sessions[i]).entry.session_id@ != (
            #[trigger] sessions[j]).entry.session_id@,
        forall|a: int| 0 <= a < plan.len() ==> (#[trigger] plan[a]).index < sessions.len(),
        forall|a: int, b: int|
            0 <= a < b < plan.len() ==> (#[trigger] plan[a]).index < (#[trigger] plan[b]).index,
    ensures
        ({
            let shown = loaded(
                policy,
                caches,
                sessions,
                plan,
                model_default,
                shared,
                now_ms,
                config_root,
            ).1;
            &&& forall|a: int, b: int|
                0 <= a < b < shown.len() ==> (#[trigger] shown[a]).session_id != (
                #[trigger] shown[b]).session_id
            &&& forall|a: int|
                0 <= a < shown.len() ==> exists|k: int|
                    0 <= k < plan.len() && sessions[(#[trigger] plan[k]).index as int].entry.session_id@
                        == (#[trigger] shown[a]).session_id
        }),
    decreases plan.len(),
{
    if plan.len() > 0 {
        let most = plan.drop_last();
        assert forall|a: int| 0 <= a < most.len() implies (#[trigger] most[a]).index
            < sessions.len() by {
            assert(plan[a].index < sessions.len());
        }
        assert forall|a: int, b: int| 0 <= a < b < most.len() implies (#[trigger] most[a]).index
            < (#[trigger] most[b]).index by {
            assert(plan[a].index < plan[b].index);
        }
        lemma_loaded(
            policy,
            caches,
            sessions,
            most,
            model_default,
            shared,
            now_ms,
            config_root,
        );
        let rest = loaded(
            policy,
            caches,
            sessions,
            most,
            model_default,
            shared,
            now_ms,
            config_root,
        ).1;
        let shown = loaded(
            policy,
            caches,
            sessions,
            plan,
            model_default,
            shared,
            now_ms,
            config_root,
        ).1;
        let last = plan.len() - 1;
        assert forall|a: int| 0 <= a < rest.len() implies exists|k: int|
            0 <= k < last && sessions[(#[trigger] plan[k]).index as int].entry.session_id@ == (
            #[trigger] rest[a]).session_id by {
            let k = choose|k: int|
                0 <= k < most.len() && sessions[(#[trigger] most[k]).index as int].entry.session_id@
                    == rest[a].session_id;
            assert(plan[k] == most[k]);
        }
        assert forall|a: int| 0 <= a < shown.len() implies exists|k: int|
            0 <= k < plan.len() && sessions[(#[trigger] plan[k]).index as int].entry.session_id@
                == (#[trigger] shown[a]).session_id by {
            if a < rest.len() {
                assert(shown[a] == rest[a]);
            } else {
                assert(sessions[plan[last].index as int].entry.session_id@ == shown[a].session_id);
            }
        }
        assert forall|a: int, b: int| 0 <= a < b < shown.len() implies (
        #[trigger] shown[a]).session_id != (#[trigger] shown[b]).session_id by {
            assert(shown[a] == rest[a]);
            if b < rest.len() {
                assert(shown[b] == rest[b]);
            } else {
                let k = choose|k: int|
                    0 <= k < last && sessions[(#[trigger] plan[k]).index as int].entry.session_id@
                        == rest[a].session_id;
                assert(plan[k].index < plan[last].index);
                assert(sessions[plan[k].index as int].entry.session_id@
                    != sessions[plan[last].index as int].entry.session_id@);
            }
        }
    }
}

/// No session is reported twice, where the index names none twice.
pub proof fn law_no_session_is_reported_twice<P: HostPolicy>(
    policy: P,
    caches: Map<Seq<char>, CacheView>,
    sessions: Seq<KnownSession>,
    pids: Seq<u32>,
    server_pid: Option<u32>,
    cwds: Map<u32, String>,
    model_default: Seq<char>,
    shared: SharedProcessData,
    now_ms: u64,
    config_root: Seq<char>,
)
    requires
        sessions.len() <= usize::MAX,
        forall|i: int, j: int|
            0 <= i < j < sessions.len() ==> (#[trigger] sessions[i]).entry.session_id@ != (
            #[trigger] sessions[j]).entry.session_id@,
    ensures
        ({
            let plan = planned(sessions, pids, server_pid, shared.process_info@, cwds);
            let shown = loaded(
                policy,
                caches,
                sessions,
                plan,
                model_default,
                shared,
                now_ms,
                config_root,
            ).1;
            forall|a: int, b: int|
                0 <= a < b < shown.len() ==> (#[trigger] shown[a]).session_id != (
                #[trigger] shown[b]).session_id
        }),
{
    let info = shared.process_info@;
    lemma_shown_among(sessions, pids, server_pid, info, cwds, sessions.len());
    lemma_loaded(
        policy,
        caches,
        sessions,
        planned(sessions, pids, server_pid, info, cwds),
        model_default,
        shared,
        now_ms,
        config_root,
    );
}

} // verus!
