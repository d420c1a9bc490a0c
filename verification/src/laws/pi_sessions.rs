//! Which sessions Pi has, and which of them are shown.
use crate::json::json_text;
use crate::laws::text::is_free_of;
use crate::laws::text::law_text_is_split_at_separators;
use crate::laws::text::lemma_last_part;
use crate::pi::collector::KnownSidecar;
use crate::pi::collector::KnownTranscript;
use crate::pi::collector::dropped_claims;
use crate::pi::collector::is_pi_process;
use crate::pi::collector::shown_claims;
use crate::pi::collector::shown_transcripts;
use crate::pi::discovery::TranscriptFile;
use crate::pi::discovery::header_document;
use crate::pi::discovery::header_in;
use crate::pi::discovery::is_transcript;
use crate::pi::discovery::named_dir;
use crate::pi::discovery::transcript_header;
use crate::pi::discovery::transcripts_among;
use crate::pi::sidecar::ClaimFile;
use crate::pi::sidecar::file_claim;
use crate::pi::sidecar::file_claims;
use crate::pi::sidecar::has_extension;
use crate::pi::sidecar::holds;
use crate::pi::sidecar::sidecar_in;
use crate::process::ProcInfo;
use crate::process::ancestors;
use crate::process::binary_name;
use crate::text::lines;
use crate::text::split_on;
use crate::text::trim;
use vstd::prelude::*;

verus! {

/// A claim is shown if and only if it holds or its transcript changed within
/// the last five minutes, and it is shown as verified if and only if it holds.
pub proof fn law_claims_that_are_shown(
    claims: Seq<KnownSidecar>,
    info: Map<u32, ProcInfo>,
    n: nat,
    i: int,
)
    requires
        n <= claims.len() <= usize::MAX,
    ensures
        (0 <= i < n && (holds(claims[i].sidecar, info) || claims[i].transcript_age_secs < 300))
            <==> exists|a: int|
            0 <= a < shown_claims(claims, info, n).len() && (#[trigger] shown_claims(
                claims,
                info,
                n,
            )[a]).index == i,
        forall|a: int|
            0 <= a < shown_claims(claims, info, n).len() ==> (#[trigger] shown_claims(
                claims,
                info,
                n,
            )[a]).index < n && shown_claims(claims, info, n)[a].verified == holds(
                claims[shown_claims(claims, info, n)[a].index as int].sidecar,
                info,
            ),
    decreases n,
{
    if n > 0 {
        let m = (n - 1) as nat;
        law_claims_that_are_shown(claims, info, m, i);
        let rest = shown_claims(claims, info, m);
        let shown = shown_claims(claims, info, n);
        assert forall|a: int| 0 <= a < shown.len() implies (#[trigger] shown[a]).index < n
            && shown[a].verified == holds(claims[shown[a].index as int].sidecar, info) by {
            if a < rest.len() {
                assert(shown[a] == rest[a]);
            }
        }
        if exists|a: int| 0 <= a < rest.len() && (#[trigger] rest[a]).index == i {
            let a = choose|a: int| 0 <= a < rest.len() && (#[trigger] rest[a]).index == i;
            assert(shown[a].index == i);
        }
        if i == m && shown.len() > rest.len() {
            assert(shown[rest.len() as int].index == i);
        }
        if exists|a: int| 0 <= a < shown.len() && (#[trigger] shown[a]).index == i {
            let a = choose|a: int| 0 <= a < shown.len() && (#[trigger] shown[a]).index == i;
            if a < rest.len() {
                assert(rest[a].index == i);
            }
        }
    }
}

/// A claim is dropped if and only if its process is gone and its transcript has
/// not changed for five minutes.
pub proof fn law_claims_that_are_dropped(
    claims: Seq<KnownSidecar>,
    info: Map<u32, ProcInfo>,
    n: nat,
    pid: u32,
)
    requires
        n <= claims.len(),
    ensures
        dropped_claims(claims, info, n).contains(pid) <==> exists|i: int|
            0 <= i < n && (#[trigger] claims[i]).sidecar.pid == pid && !info.dom().contains(pid)
                && claims[i].transcript_age_secs >= 300,
    decreases n,
{
    if n > 0 {
        let m = (n - 1) as nat;
        law_claims_that_are_dropped(claims, info, m, pid);
        let rest = dropped_claims(claims, info, m);
        let all = dropped_claims(claims, info, n);
        if rest.contains(pid) {
            let k = choose|k: int| 0 <= k < rest.len() && rest[k] == pid;
            assert(all[k] == pid);
        }
        if all.contains(pid) {
            let k = choose|k: int| 0 <= k < all.len() && all[k] == pid;
            if k < rest.len() {
                assert(rest[k] == pid);
            } else {
                assert(claims[m as int].sidecar.pid == pid);
            }
        }
        if all.len() > rest.len() {
            assert(all[rest.len() as int] == claims[m as int].sidecar.pid);
        }
    }
}

/// Whether some claim names the session of the transcript, or one that holds
/// names its directory.
pub open spec fn is_spoken_for(
    claims: Seq<KnownSidecar>,
    info: Map<u32, ProcInfo>,
    t: KnownTranscript,
) -> bool {
    ||| exists|k: int|
        0 <= k < claims.len() && (#[trigger] claims[k]).sidecar.session_id@
            == t.header.session_id@
    ||| exists|k: int|
        0 <= k < claims.len() && holds((#[trigger] claims[k]).sidecar, info)
            && claims[k].sidecar.cwd@ == t.header.cwd@
}

/// Whether one of the processes works in the directory of the transcript.
pub open spec fn is_worked_in(
    pids: Seq<u32>,
    cwds: Map<u32, String>,
    t: KnownTranscript,
) -> bool {
    t.header.cwd@.len() > 0 && exists|k: int|
        0 <= k < pids.len() && cwds.contains_key(#[trigger] pids[k]) && cwds[pids[k]]@
            == t.header.cwd@
}

/// Whether a transcript is shown without a claim: no claim speaks for it, and it
/// is the first of those in a directory where a process works, or changed
/// within the last five minutes where none does.
pub open spec fn is_fallback(
    transcripts: Seq<KnownTranscript>,
    claims: Seq<KnownSidecar>,
    pids: Seq<u32>,
    info: Map<u32, ProcInfo>,
    cwds: Map<u32, String>,
    i: int,
) -> bool {
    let t = transcripts[i];
    &&& !is_spoken_for(claims, info, t)
    &&& is_worked_in(pids, cwds, t) ==> forall|j: int|
        0 <= j < i && (#[trigger] transcripts[j]).header.cwd@ == t.header.cwd@ ==> is_spoken_for(
            claims,
            info,
            transcripts[j],
        )
    &&& !is_worked_in(pids, cwds, t) ==> t.age_secs < 300
}

/// The transcripts that are shown without a claim are those, in order, each of
/// no process and of unknown status.
pub proof fn law_transcripts_that_are_shown(
    transcripts: Seq<KnownTranscript>,
    claims: Seq<KnownSidecar>,
    pids: Seq<u32>,
    info: Map<u32, ProcInfo>,
    cwds: Map<u32, String>,
    n: nat,
    i: int,
)
    requires
        n <= transcripts.len() <= usize::MAX,
    ensures
        ({
            let shown = shown_transcripts(transcripts, claims, pids, info, cwds, n);
            &&& (0 <= i < n && is_fallback(transcripts, claims, pids, info, cwds, i)) <==> exists|
                a: int,
            |
                0 <= a < shown.len() && (#[trigger] shown[a]).index == i
            &&& forall|a: int|
                0 <= a < shown.len() ==> (#[trigger] shown[a]).pid == 0 && shown[a].unknown_status
                    && shown[a].index < n
            &&& forall|a: int, b: int|
                0 <= a < b < shown.len() ==> (#[trigger] shown[a]).index < (
                #[trigger] shown[b]).index
        }),
    decreases n,
{
    if n > 0 {
        let m = (n - 1) as nat;
        law_transcripts_that_are_shown(transcripts, claims, pids, info, cwds, m, i);
        let rest = shown_transcripts(transcripts, claims, pids, info, cwds, m);
        let shown = shown_transcripts(transcripts, claims, pids, info, cwds, n);
        assert(crate::pi::collector::is_shown_transcript(
            transcripts,
            claims,
            pids,
            info,
            cwds,
            m as int,
        ) <==> is_fallback(transcripts, claims, pids, info, cwds, m as int)) by {
            let t = transcripts[m as int];
            assert(crate::pi::collector::is_unclaimed(claims, info, t) <==> !is_spoken_for(
                claims,
                info,
                t,
            ));
            assert(crate::pi::collector::is_attributed(pids, cwds, t) <==> is_worked_in(
                pids,
                cwds,
                t,
            ));
            assert(forall|j: int|
                0 <= j < m && (#[trigger] transcripts[j]).header.cwd@ == t.header.cwd@ ==> (
                crate::pi::collector::is_unclaimed(claims, info, transcripts[j])
                    <==> !is_spoken_for(claims, info, transcripts[j])));
        }
        assert forall|a: int| 0 <= a < shown.len() implies (#[trigger] shown[a]).pid == 0
            && shown[a].unknown_status && shown[a].index < n by {
            if a < rest.len() {
                assert(shown[a] == rest[a]);
            }
        }
        assert forall|a: int, b: int| 0 <= a < b < shown.len() implies (#[trigger] shown[a]).index
            < (#[trigger] shown[b]).index by {
            assert(shown[a] == rest[a]);
            if b < rest.len() {
                assert(shown[b] == rest[b]);
            }
        }
        if exists|a: int| 0 <= a < rest.len() && (#[trigger] rest[a]).index == i {
            let a = choose|a: int| 0 <= a < rest.len() && (#[trigger] rest[a]).index == i;
            assert(shown[a].index == i);
        }
        if i == m && shown.len() > rest.len() {
            assert(shown[rest.len() as int].index == i);
        }
        if exists|a: int| 0 <= a < shown.len() && (#[trigger] shown[a]).index == i {
            let a = choose|a: int| 0 <= a < shown.len() && (#[trigger] shown[a]).index == i;
            if a < rest.len() {
                assert(rest[a].index == i);
            }
        }
    }
}

/// A file has an extension where its name is something that is not empty, a
/// dot, and the extension.
pub proof fn law_extension_follows_the_last_dot(
    stem: Seq<char>,
    tail: Seq<char>,
    extension: Seq<char>,
)
    requires
        is_free_of(tail, '.'),
    ensures
        has_extension(stem + seq!['.'] + tail, extension) <==> stem.len() > 0 && tail == extension,
        !has_extension(tail, extension),
{
    lemma_last_part(stem, '.', tail);
    law_text_is_split_at_separators(tail, '.', Seq::empty());
    let parts = split_on(stem, '.');
    assert(parts.len() >= 1);
    if stem.len() == 0 {
        assert(is_free_of(stem, '.'));
        law_text_is_split_at_separators(stem, '.', Seq::empty());
    } else if parts.len() == 1 {
        crate::text::lemma_find_char(stem, '.');
        if crate::text::find_char(stem, '.') < stem.len() {
            let rest = stem.skip(crate::text::find_char(stem, '.') as int + 1);
            assert(split_on(rest, '.').len() >= 1);
            assert(split_on(stem, '.').len() >= 2);
        }
        assert(parts[0] == stem);
        assert(split_on(stem + seq!['.'] + tail, '.')[0] == stem);
    }
}

/// The claims are those of the files with the extension `json` that can be read
/// and make one, in order.
pub proof fn law_claims_are_those_of_the_files(files: Seq<ClaimFile>, file: ClaimFile)
    ensures
        file_claims(Seq::empty()).len() == 0,
        file_claim(file) is Some ==> file_claims(files.push(file)) == file_claims(files).push(
            file_claim(file)->0,
        ),
        file_claim(file) is None ==> file_claims(files.push(file)) == file_claims(files),
        !has_extension(file.name@, "json"@) || file.text is None ==> file_claim(file) is None,
        has_extension(file.name@, "json"@) && file.text is Some ==> match json_text(
            file.text->0@,
        ) {
            Some(doc) => file_claim(file) == sidecar_in(doc),
            None => file_claim(file) is None,
        },
{
    assert(files.push(file).drop_last() =~= files);
}

/// The transcripts are the files with the extension `jsonl` outside the
/// directory of the claims, in order.
pub proof fn law_transcripts_are_found(files: Seq<TranscriptFile>, file: TranscriptFile)
    ensures
        transcripts_among(Seq::empty()).len() == 0,
        is_transcript(file) <==> has_extension(file.name@, "jsonl"@) && file.dir_name@ != "active"@,
        is_transcript(file) ==> transcripts_among(files.push(file)) == transcripts_among(
            files,
        ).push(file),
        !is_transcript(file) ==> transcripts_among(files.push(file)) == transcripts_among(files),
{
    assert(files.push(file).drop_last() =~= files);
}

/// Whether a line is the header of a session.
pub open spec fn is_header(line: Seq<char>) -> bool {
    &&& trim(line).len() > 0
    &&& json_text(trim(line)) is Some
    &&& json_text(trim(line))->0.get_str("type"@) == Some("session"@)
}

proof fn lemma_header_document(ls: Seq<Seq<char>>, i: int)
    ensures
        0 <= i < ls.len() && is_header(ls[i]) && (forall|k: int|
            0 <= k < i ==> !is_header(#[trigger] ls[k])) ==> header_document(ls) == json_text(
            trim(ls[i]),
        ),
        (forall|k: int| 0 <= k < ls.len() ==> !is_header(#[trigger] ls[k])) ==> header_document(
            ls,
        ) is None,
    decreases ls.len(),
{
    if ls.len() > 0 {
        let rest = ls.drop_first();
        lemma_header_document(rest, i - 1);
        assert forall|k: int| 0 <= k < rest.len() implies #[trigger] rest[k] == ls[k + 1] by {}
    }
}

/// The header of a transcript is the first of its lines that is one; a
/// transcript without such a line has none.
pub proof fn law_first_header_counts(
    text: Seq<char>,
    path: Seq<char>,
    modified_ms: u64,
    i: int,
)
    ensures
        ({
            let ls = lines(text);
            &&& 0 <= i < ls.len() && is_header(ls[i]) && (forall|k: int|
                0 <= k < i ==> !is_header(#[trigger] ls[k])) ==> transcript_header(
                text,
                path,
                modified_ms,
            ) == header_in(json_text(trim(ls[i]))->0, path, modified_ms)
            &&& (forall|k: int| 0 <= k < ls.len() ==> !is_header(#[trigger] ls[k]))
                ==> transcript_header(text, path, modified_ms) is None
        }),
{
    lemma_header_document(lines(text), i);
}

/// The sessions stand where the first of the two variables says that is not
/// empty.
pub proof fn law_directory_is_the_first_named(
    first: Option<Seq<char>>,
    second: Option<Seq<char>>,
)
    ensures
        first is Some && first->0.len() > 0 ==> named_dir(first, second) == first,
        (first is None || first->0.len() == 0) && second is Some && second->0.len() > 0
            ==> named_dir(first, second) == second,
        (first is None || first->0.len() == 0) && (second is None || second->0.len() == 0)
            ==> named_dir(first, second) is None,
{
}

/// A process is one of Pi where its binary has one of the names of the agent or
/// of those built on it, and it does not run below this program.
pub proof fn law_pi_is_told_by_its_binary(info: Map<u32, ProcInfo>, self_pid: u32, pid: u32)
    ensures
        is_pi_process(info, self_pid, pid) <==> info.dom().contains(pid) && !ancestors(
            info,
            pid,
        ).contains(self_pid) && (binary_name(info[pid].command@) == "pi"@ || binary_name(
            info[pid].command@,
        ) == "my-pi-agent"@ || binary_name(info[pid].command@) == "pi-coding-agent"@
            || binary_name(info[pid].command@) == "my-pi-agent.exe"@),
{
}

} // verus!
