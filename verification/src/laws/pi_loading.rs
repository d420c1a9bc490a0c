//! How the sessions of Pi are loaded.
use crate::cache::CacheView;
use crate::caches::known;
use crate::model::SessionView;
use crate::pi::collector::KnownSidecar;
use crate::pi::collector::KnownTranscript;
use crate::pi::collector::PlannedSidecar;
use crate::pi::collector::PlannedTranscript;
use crate::pi::collector::loaded_claims;
use crate::pi::collector::loaded_sessions;
use crate::pi::collector::loaded_transcripts;
use crate::pi::collector::shown_claims;
use crate::pi::collector::shown_transcripts;
use crate::pi::collector::sidecar_session;
use crate::pi::collector::transcript_session;
use crate::pi::transcript::Transcript;
use crate::policy::HostPolicy;
use crate::process::SharedProcessData;
use crate::tailing::look_fits;
use crate::tailing::looked;
use vstd::prelude::*;

verus! {

/// The claims of a plan are loaded each from what was known of its session:
/// where the sessions differ, each that can be looked at is reported with what
/// the look finds, which is then known of it; one that cannot is not reported,
/// and nothing is known of it. What was reported before stays, and so does what
/// is known of other sessions.
pub proof fn law_claims_are_loaded<P: HostPolicy>(
    policy: P,
    start: (Map<Seq<char>, CacheView>, Seq<SessionView>),
    claims: Seq<KnownSidecar>,
    plan: Seq<PlannedSidecar>,
    shared: SharedProcessData,
    now_ms: u64,
    root: Seq<char>,
    k: int,
)
    requires
        forall|i: int, j: int|
            0 <= i < j < plan.len() ==> claims[(#[trigger] plan[i]).index as int].sidecar.session_id@
                != claims[(#[trigger] plan[j]).index as int].sidecar.session_id@,
    ensures
        ({
            let r = loaded_claims(policy, start, claims, plan, shared, now_ms, root);
            &&& start.1.len() <= r.1.len() <= start.1.len() + plan.len()
            &&& forall|a: int| 0 <= a < start.1.len() ==> #[trigger] r.1[a] == start.1[a]
            &&& 0 <= k < plan.len() ==> ({
                let x = claims[plan[k].index as int];
                let id = x.sidecar.session_id@;
                let before = known(start.0, id);
                let after = looked::<P, Transcript>(policy, before, x.log);
                &&& look_fits::<P, Transcript>(policy, before, x.log) ==> r.0.contains_key(id)
                    && r.0[id] == after && r.1.contains(
                    sidecar_session(after, x.sidecar@, plan[k].verified, shared, now_ms, root),
                )
                &&& !look_fits::<P, Transcript>(policy, before, x.log) ==> !r.0.contains_key(id)
                    && forall|a: int|
                    start.1.len() <= a < r.1.len() ==> (#[trigger] r.1[a]).session_id != id
            })
            &&& forall|a: int|
                start.1.len() <= a < r.1.len() ==> exists|i: int|
                    0 <= i < plan.len() && claims[(#[trigger] plan[i]).index as int].sidecar.session_id@ == (
                    #[trigger] r.1[a]).session_id
            &&& forall|id: Seq<char>|
                (forall|i: int|
                    0 <= i < plan.len() ==> claims[(#[trigger] plan[i]).index as int].sidecar.session_id@ != id)
                    ==> #[trigger] r.0.contains_key(id) == start.0.contains_key(id) && (
                r.0.contains_key(id) ==> r.0[id] == start.0[id])
        }),
    decreases plan.len(),
{
    if plan.len() > 0 {
        let most = plan.drop_last();
        let n = plan.len() - 1;
        assert forall|i: int, j: int| 0 <= i < j < most.len() implies claims[(
        #[trigger] most[i]).index as int].sidecar.session_id@ != claims[(#[trigger] most[j]).index as int].sidecar.session_id@ by {
            assert(plan[i] == most[i] && plan[j] == most[j]);
        }
        law_claims_are_loaded(policy, start, claims, most, shared, now_ms, root, k);
        let m = loaded_claims(policy, start, claims, most, shared, now_ms, root);
        let r = loaded_claims(policy, start, claims, plan, shared, now_ms, root);
        let last = claims[plan.last().index as int];
        let last_id = last.sidecar.session_id@;
        assert(plan[n] == plan.last());
        assert forall|i: int| 0 <= i < most.len() implies claims[(
        #[trigger] most[i]).index as int].sidecar.session_id@ != last_id by {
            assert(plan[i] == most[i]);
            assert(claims[plan[i].index as int].sidecar.session_id@ != claims[plan[n].index as int].sidecar.session_id@);
        }
        assert(m.0.contains_key(last_id) == start.0.contains_key(last_id));
        assert(known(m.0, last_id) == known(start.0, last_id));
        assert forall|a: int| 0 <= a < start.1.len() implies #[trigger] r.1[a] == start.1[a] by {
            assert(r.1[a] == m.1[a]);
        }
        assert forall|a: int| start.1.len() <= a < m.1.len() implies (#[trigger] m.1[a]).session_id
            != last_id by {
            let i = choose|i: int|
                0 <= i < most.len() && claims[(#[trigger] most[i]).index as int].sidecar.session_id@
                    == m.1[a].session_id;
            assert(claims[most[i].index as int].sidecar.session_id@ != last_id);
        }
        assert forall|a: int| start.1.len() <= a < r.1.len() implies exists|i: int|
            0 <= i < plan.len() && claims[(#[trigger] plan[i]).index as int].sidecar.session_id@ == (
            #[trigger] r.1[a]).session_id by {
            if a < m.1.len() {
                assert(r.1[a] == m.1[a]);
                let i = choose|i: int|
                    0 <= i < most.len() && claims[(#[trigger] most[i]).index as int].sidecar.session_id@
                        == m.1[a].session_id;
                assert(plan[i] == most[i]);
            } else {
                assert(claims[plan[n].index as int].sidecar.session_id@ == r.1[a].session_id);
            }
        }
        if 0 <= k < n {
            let x = claims[plan[k].index as int];
            let id = x.sidecar.session_id@;
            assert(most[k] == plan[k]);
            assert(id != last_id);
            let before = known(start.0, id);
            let after = looked::<P, Transcript>(policy, before, x.log);
            let v = sidecar_session(after, x.sidecar@, plan[k].verified, shared, now_ms, root);
            if look_fits::<P, Transcript>(policy, before, x.log) {
                let a = choose|a: int| 0 <= a < m.1.len() && m.1[a] == v;
                assert(r.1[a] == v);
            } else {
                assert forall|a: int| start.1.len() <= a < r.1.len() implies (
                #[trigger] r.1[a]).session_id != id by {
                    if a < m.1.len() {
                        assert(m.1[a] == r.1[a]);
                    }
                }
            }
        } else if k == n {
            let before = known(start.0, last_id);
            if look_fits::<P, Transcript>(policy, before, last.log) {
                let after = looked::<P, Transcript>(policy, before, last.log);
                assert(r.1[m.1.len() as int] == sidecar_session(after, last.sidecar@, plan[k].verified, shared, now_ms, root));
            }
        }
        assert forall|id: Seq<char>|
            (forall|i: int|
                0 <= i < plan.len() ==> claims[(#[trigger] plan[i]).index as int].sidecar.session_id@
                    != id) implies #[trigger] r.0.contains_key(id) == start.0.contains_key(id) && (
        r.0.contains_key(id) ==> r.0[id] == start.0[id]) by {
            assert(claims[plan[n].index as int].sidecar.session_id@ != id);
            assert forall|i: int| 0 <= i < most.len() implies claims[(
            #[trigger] most[i]).index as int].sidecar.session_id@ != id by {
                assert(plan[i] == most[i]);
            }
            assert(m.0.contains_key(id) == start.0.contains_key(id));
        }
    }
}

/// The transcripts of a plan are loaded each from what was known of its session,
/// as claims are.
pub proof fn law_transcripts_are_loaded<P: HostPolicy>(
    policy: P,
    start: (Map<Seq<char>, CacheView>, Seq<SessionView>),
    transcripts: Seq<KnownTranscript>,
    plan: Seq<PlannedTranscript>,
    shared: SharedProcessData,
    now_ms: u64,
    root: Seq<char>,
    k: int,
)
    requires
        forall|i: int, j: int|
            0 <= i < j < plan.len() ==> transcripts[(#[trigger] plan[i]).index as int].header.session_id@
                != transcripts[(#[trigger] plan[j]).index as int].header.session_id@,
    ensures
        ({
            let r = loaded_transcripts(policy, start, transcripts, plan, shared, now_ms, root);
            &&& start.1.len() <= r.1.len() <= start.1.len() + plan.len()
            &&& forall|a: int| 0 <= a < start.1.len() ==> #[trigger] r.1[a] == start.1[a]
            &&& 0 <= k < plan.len() ==> ({
                let x = transcripts[plan[k].index as int];
                let id = x.header.session_id@;
                let before = known(start.0, id);
                let after = looked::<P, Transcript>(policy, before, x.log);
                &&& look_fits::<P, Transcript>(policy, before, x.log) ==> r.0.contains_key(id)
                    && r.0[id] == after && r.1.contains(
                    transcript_session(after, x.header@, plan[k].pid, plan[k].unknown_status, shared, now_ms, root),
                )
                &&& !look_fits::<P, Transcript>(policy, before, x.log) ==> !r.0.contains_key(id)
                    && forall|a: int|
                    start.1.len() <= a < r.1.len() ==> (#[trigger] r.1[a]).session_id != id
            })
            &&& forall|a: int|
                start.1.len() <= a < r.1.len() ==> exists|i: int|
                    0 <= i < plan.len() && transcripts[(#[trigger] plan[i]).index as int].header.session_id@ == (
                    #[trigger] r.1[a]).session_id
            &&& forall|id: Seq<char>|
                (forall|i: int|
                    0 <= i < plan.len() ==> transcripts[(#[trigger] plan[i]).index as int].header.session_id@ != id)
                    ==> #[trigger] r.0.contains_key(id) == start.0.contains_key(id) && (
                r.0.contains_key(id) ==> r.0[id] == start.0[id])
        }),
    decreases plan.len(),
{
    if plan.len() > 0 {
        let most = plan.drop_last();
        let n = plan.len() - 1;
        assert forall|i: int, j: int| 0 <= i < j < most.len() implies transcripts[(
        #[trigger] most[i]).index as int].header.session_id@ != transcripts[(#[trigger] most[j]).index as int].header.session_id@ by {
            assert(plan[i] == most[i] && plan[j] == most[j]);
        }
        law_transcripts_are_loaded(policy, start, transcripts, most, shared, now_ms, root, k);
        let m = loaded_transcripts(policy, start, transcripts, most, shared, now_ms, root);
        let r = loaded_transcripts(policy, start, transcripts, plan, shared, now_ms, root);
        let last = transcripts[plan.last().index as int];
        let last_id = last.header.session_id@;
        assert(plan[n] == plan.last());
        assert forall|i: int| 0 <= i < most.len() implies transcripts[(
        #[trigger] most[i]).index as int].header.session_id@ != last_id by {
            assert(plan[i] == most[i]);
            assert(transcripts[plan[i].index as int].header.session_id@ != transcripts[plan[n].index as int].header.session_id@);
        }
        assert(m.0.contains_key(last_id) == start.0.contains_key(last_id));
        assert(known(m.0, last_id) == known(start.0, last_id));
        assert forall|a: int| 0 <= a < start.1.len() implies #[trigger] r.1[a] == start.1[a] by {
            assert(r.1[a] == m.1[a]);
        }
        assert forall|a: int| start.1.len() <= a < m.1.len() implies (#[trigger] m.1[a]).session_id
            != last_id by {
            let i = choose|i: int|
                0 <= i < most.len() && transcripts[(#[trigger] most[i]).index as int].header.session_id@
                    == m.1[a].session_id;
            assert(transcripts[most[i].index as int].header.session_id@ != last_id);
        }
        assert forall|a: int| start.1.len() <= a < r.1.len() implies exists|i: int|
            0 <= i < plan.len() && transcripts[(#[trigger] plan[i]).index as int].header.session_id@ == (
            #[trigger] r.1[a]).session_id by {
            if a < m.1.len() {
                assert(r.1[a] == m.1[a]);
                let i = choose|i: int|
                    0 <= i < most.len() && transcripts[(#[trigger] most[i]).index as int].header.session_id@
                        == m.1[a].session_id;
                assert(plan[i] == most[i]);
            } else {
                assert(transcripts[plan[n].index as int].header.session_id@ == r.1[a].session_id);
            }
        }
        if 0 <= k < n {
            let x = transcripts[plan[k].index as int];
            let id = x.header.session_id@;
            assert(most[k] == plan[k]);
            assert(id != last_id);
            let before = known(start.0, id);
            let after = looked::<P, Transcript>(policy, before, x.log);
            let v = transcript_session(after, x.header@, plan[k].pid, plan[k].unknown_status, shared, now_ms, root);
            if look_fits::<P, Transcript>(policy, before, x.log) {
                let a = choose|a: int| 0 <= a < m.1.len() && m.1[a] == v;
                assert(r.1[a] == v);
            } else {
                assert forall|a: int| start.1.len() <= a < r.1.len() implies (
                #[trigger] r.1[a]).session_id != id by {
                    if a < m.1.len() {
                        assert(m.1[a] == r.1[a]);
                    }
                }
            }
        } else if k == n {
            let before = known(start.0, last_id);
            if look_fits::<P, Transcript>(policy, before, last.log) {
                let after = looked::<P, Transcript>(policy, before, last.log);
                assert(r.1[m.1.len() as int] == transcript_session(after, last.header@, plan[k].pid, plan[k].unknown_status, shared, now_ms, root));
            }
        }
        assert forall|id: Seq<char>|
            (forall|i: int|
                0 <= i < plan.len() ==> transcripts[(#[trigger] plan[i]).index as int].header.session_id@
                    != id) implies #[trigger] r.0.contains_key(id) == start.0.contains_key(id) && (
        r.0.contains_key(id) ==> r.0[id] == start.0[id]) by {
            assert(transcripts[plan[n].index as int].header.session_id@ != id);
            assert forall|i: int| 0 <= i < most.len() implies transcripts[(
            #[trigger] most[i]).index as int].header.session_id@ != id by {
                assert(plan[i] == most[i]);
            }
            assert(m.0.contains_key(id) == start.0.contains_key(id));
        }
    }
}

/// The sessions are those of the claims that are shown, and behind them those of
/// the transcripts that are shown without a claim.
pub proof fn law_claims_are_loaded_before_transcripts<P: HostPolicy>(
    policy: P,
    caches: Map<Seq<char>, CacheView>,
    claims: Seq<KnownSidecar>,
    transcripts: Seq<KnownTranscript>,
    pids: Seq<u32>,
    cwds: Map<u32, String>,
    shared: SharedProcessData,
    now_ms: u64,
    root: Seq<char>,
)
    ensures
        ({
            let info = shared.process_info@;
            let first = loaded_claims(
                policy,
                (caches, Seq::empty()),
                claims,
                shown_claims(claims, info, claims.len()),
                shared,
                now_ms,
                root,
            );
            loaded_sessions(
                policy,
                caches,
                claims,
                transcripts,
                pids,
                cwds,
                shared,
                now_ms,
                root,
            ) == loaded_transcripts(
                policy,
                first,
                transcripts,
                shown_transcripts(transcripts, claims, pids, info, cwds, transcripts.len()),
                shared,
                now_ms,
                root,
            )
        }),
{
}

} // verus!
