//! Where Pi keeps its transcripts, and what their headers say.
use crate::content::or_empty;
use crate::json::json_text;
use crate::json::opt_chars;
use crate::json::parse_json;
use crate::json::Json;
use crate::json::JsonTree;
use crate::model::opt_string;
use crate::order::is_stable_sorting;
use crate::order::sort_descending;
use crate::order::Ranked;
use crate::pi::sidecar::has_extension;
use crate::pi::sidecar::has_file_extension;
use crate::text::chars_of;
use crate::text::lines;
use crate::text::lines_of;
use crate::text::seqs;
use crate::text::string_of;
use crate::text::text_eq;
use crate::text::trim;
use crate::text::trim_chars;
use crate::timestamp::timestamp_ms;
use crate::timestamp::timestamp_value;
use vstd::prelude::*;

verus! {

/// One file in a directory of transcripts.
#[derive(Debug)]
pub struct TranscriptFile {
    /// The name of the directory.
    pub dir_name: String,
    pub name: String,
    pub path: String,
    /// When it was changed, in seconds from 1970, or 0 where that is not
    /// known.
    pub modified_secs: u64,
}

impl Ranked for TranscriptFile {
    /// When the file was changed.
    open spec fn rank(&self) -> u64 {
        self.modified_secs
    }

    fn rank_of(&self) -> (r: u64) {
        self.modified_secs
    }
}

/// Whether the file is a transcript: it has the extension, and does not stand
/// among the claims of running processes.
pub open spec fn is_transcript(file: TranscriptFile) -> bool {
    file.dir_name@ != "active"@ && has_extension(file.name@, "jsonl"@)
}

/// The files that are transcripts.
pub open spec fn transcripts_among(files: Seq<TranscriptFile>) -> Seq<TranscriptFile>
    decreases files.len(),
{
    if files.len() == 0 {
        Seq::empty()
    } else {
        let rest = transcripts_among(files.drop_last());
        if is_transcript(files.last()) {
            rest.push(files.last())
        } else {
            rest
        }
    }
}

/// The transcripts, the one changed last first.
pub fn discover_transcripts(files: Vec<TranscriptFile>) -> (r: Vec<TranscriptFile>)
    ensures
        is_stable_sorting(transcripts_among(files@), r@),
{
    let ghost all = files@;
    let mut rest = files;
    let mut out: Vec<TranscriptFile> = Vec::new();
    let ghost mut n: int = 0;
    assert(all.skip(0) =~= all);
    assert(all.take(0) =~= Seq::empty());
    assert(out@ =~= transcripts_among(all.take(0)));
    while rest.len() > 0
        invariant
            0 <= n <= all.len(),
            rest@ == all.skip(n),
            out@ == transcripts_among(all.take(n)),
        decreases rest@.len(),
    {
        let file = rest.remove(0);
        assert(rest@ =~= all.skip(n + 1));
        assert(all.take(n + 1).drop_last() =~= all.take(n));
        assert(all.take(n + 1).last() == file);
        if !text_eq(file.dir_name.as_str(), "active") && has_file_extension(
            file.name.as_str(),
            "jsonl",
        ) {
            out.push(file);
        }
        proof {
            n = n + 1;
        }
    }
    assert(all.take(n) =~= all);
    sort_descending(out)
}

/// The header of a transcript.
#[derive(Debug)]
pub struct TranscriptHeader {
    pub session_id: String,
    pub cwd: String,
    pub started_at: u64,
    pub path: String,
}

#[verifier::ext_equal]
pub struct HeaderView {
    pub session_id: Seq<char>,
    pub cwd: Seq<char>,
    pub started_at: u64,
    pub path: Seq<char>,
}

impl View for TranscriptHeader {
    type V = HeaderView;

    open spec fn view(&self) -> HeaderView {
        HeaderView {
            session_id: self.session_id@,
            cwd: self.cwd@,
            started_at: self.started_at,
            path: self.path@,
        }
    }
}

/// What an optional header stands for.
pub open spec fn opt_header(h: Option<TranscriptHeader>) -> Option<HeaderView> {
    match h {
        Some(x) => Some(x@),
        None => None,
    }
}

/// The header that a document is, where it names a session. A session that
/// does not say when it started did so when its file was changed.
pub open spec fn header_in(doc: JsonTree, path: Seq<char>, modified_ms: u64) -> Option<HeaderView> {
    match doc.get_str("id"@) {
        None => None,
        Some(id) => Some(
            HeaderView {
                session_id: id,
                cwd: or_empty(doc.get_str("cwd"@)),
                started_at: match timestamp_value(doc.get("timestamp"@)) {
                    Some(ms) => ms,
                    None => modified_ms,
                },
                path,
            },
        ),
    }
}

/// The header that a document is.
pub fn header_of(doc: &Json, path: &str, modified_ms: u64) -> (r: Option<TranscriptHeader>)
    ensures
        opt_header(r) == header_in(doc@, path@, modified_ms),
{
    let id = match doc.get_str("id") {
        Some(i) => i,
        None => {
            return None;
        },
    };
    let cwd = match doc.get_str("cwd") {
        Some(c) => c.to_owned(),
        None => String::new(),
    };
    let started_at = match timestamp_ms(doc.get("timestamp")) {
        Some(ms) => ms,
        None => modified_ms,
    };
    let header = TranscriptHeader {
        session_id: id.to_owned(),
        cwd,
        started_at,
        path: path.to_owned(),
    };
    assert(header@ =~= header_in(doc@, path@, modified_ms)->0);
    Some(header)
}

/// The document that a line is, where it is the header of a session.
pub open spec fn line_header(line: Seq<char>) -> Option<JsonTree> {
    if trim(line).len() == 0 {
        None
    } else {
        match json_text(trim(line)) {
            Some(doc) => if doc.get_str("type"@) == Some("session"@) {
                Some(doc)
            } else {
                None
            },
            None => None,
        }
    }
}

/// The first of the lines that is the header of a session.
pub open spec fn header_document(ls: Seq<Seq<char>>) -> Option<JsonTree>
    decreases ls.len(),
{
    if ls.len() == 0 {
        None
    } else {
        match line_header(ls[0]) {
            Some(doc) => Some(doc),
            None => header_document(ls.drop_first()),
        }
    }
}

/// The header of a transcript, where it has one.
pub open spec fn transcript_header(
    text: Seq<char>,
    path: Seq<char>,
    modified_ms: u64,
) -> Option<HeaderView> {
    match header_document(lines(text)) {
        Some(doc) => header_in(doc, path, modified_ms),
        None => None,
    }
}

/// What an optional document stands for.
pub open spec fn opt_document(d: Option<Json>) -> Option<JsonTree> {
    match d {
        Some(x) => Some(x@),
        None => None,
    }
}

/// The first of the lines that is the header of a session.
fn find_header(ls: &Vec<Vec<char>>) -> (r: Option<Json>)
    ensures
        opt_document(r) == header_document(seqs(ls@)),
{
    let ghost all = seqs(ls@);
    let mut i: usize = 0;
    assert(all.skip(0) =~= all);
    while i < ls.len()
        invariant
            i <= ls@.len(),
            all == seqs(ls@),
            header_document(all) == header_document(all.skip(i as int)),
        decreases ls@.len() - i,
    {
        assert(all.skip(i as int)[0] == ls@[i as int]@);
        assert(all.skip(i as int).drop_first() =~= all.skip(i + 1));
        let line = string_of(trim_chars(ls[i].as_slice()).as_slice());
        if !line.as_str().is_empty() {
            if let Some(doc) = parse_json(line.as_str()) {
                let is_header = match doc.get_str("type") {
                    Some(t) => text_eq(t, "session"),
                    None => false,
                };
                if is_header {
                    return Some(doc);
                }
            }
        }
        i += 1;
    }
    None
}

/// The header of a transcript, by its text, its path and when it was changed.
pub fn read_transcript_header(text: &str, path: &str, modified_ms: u64) -> (r: Option<
    TranscriptHeader,
>)
    ensures
        opt_header(r) == transcript_header(text@, path@, modified_ms),
{
    let ls = lines_of(chars_of(text).as_slice());
    assert(seqs(ls@) == lines(text@));
    match find_header(&ls) {
        Some(doc) => header_of(&doc, path, modified_ms),
        None => None,
    }
}

/// The directory that the environment names for the agent: the first of the
/// two that is named and not empty.
pub open spec fn named_dir(first: Option<Seq<char>>, second: Option<Seq<char>>) -> Option<
    Seq<char>,
> {
    if or_empty(first).len() > 0 {
        first
    } else if or_empty(second).len() > 0 {
        second
    } else {
        None
    }
}

/// The directory that the environment names for the agent, where it names one.
/// The sessions stand in its `sessions`; where it names none, in
/// `.pi/agent/sessions` of the home directory.
pub fn pi_agent_dir(first: Option<&str>, second: Option<&str>) -> (r: Option<String>)
    ensures
        opt_string(r) == named_dir(opt_chars(first), opt_chars(second)),
{
    match first {
        Some(dir) => if !dir.is_empty() {
            return Some(dir.to_owned());
        },
        None => {},
    }
    match second {
        Some(dir) => if !dir.is_empty() {
            return Some(dir.to_owned());
        },
        None => {},
    }
    None
}

} // verus!
