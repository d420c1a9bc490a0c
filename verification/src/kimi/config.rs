//! The configuration of kimi-code: where it stands, and the model it names.
use crate::text::chars_of;
use crate::text::lines;
use crate::text::lines_of;
use crate::text::seqs;
use crate::text::string_of;
use crate::text::strip_prefix;
use crate::text::strip_prefix_str;
use crate::text::text_eq;
use crate::text::trim;
use crate::text::trim_both_char;
use crate::text::trim_char_end;
use crate::text::trim_char_start;
use crate::text::trim_chars;
use crate::text::trim_start;
use crate::text::trim_start_chars;
use vstd::prelude::*;
use vstd::string::StringExecFns;

verus! {

/// A value without the quotes around it.
pub open spec fn unquoted(s: Seq<char>) -> Seq<char> {
    trim(trim_char_end(trim_char_start(trim(s), '"'), '"'))
}

/// A value without the quotes around it.
fn unquote(s: &[char]) -> (r: Vec<char>)
    ensures
        r@ == unquoted(s@),
{
    trim_chars(trim_both_char(trim_chars(s).as_slice(), '"').as_slice())
}

/// The value that a line gives to `key`, where it gives one that is not empty.
pub open spec fn value_in(line: Seq<char>, key: Seq<char>) -> Option<Seq<char>> {
    match strip_prefix(trim(line), key) {
        Some(rest) => match strip_prefix(trim_start(rest), "="@) {
            Some(value) => if unquoted(value).len() > 0 {
                Some(unquoted(value))
            } else {
                None
            },
            None => None,
        },
        None => None,
    }
}

/// What optional characters stand for.
pub open spec fn opt_seq(v: Option<Vec<char>>) -> Option<Seq<char>> {
    match v {
        Some(x) => Some(x@),
        None => None,
    }
}

/// The value that a line gives to `key`, where it gives one that is not empty.
fn value_of(line: &[char], key: &str) -> (r: Option<Vec<char>>)
    ensures
        opt_seq(r) == value_in(line@, key@),
{
    match strip_prefix_str(trim_chars(line).as_slice(), key) {
        Some(rest) => match strip_prefix_str(trim_start_chars(rest.as_slice()).as_slice(), "=") {
            Some(value) => {
                let v = unquote(value.as_slice());
                if v.len() > 0 {
                    Some(v)
                } else {
                    None
                }
            },
            None => None,
        },
        None => None,
    }
}

/// The default model, by the first line that names one.
pub open spec fn default_model(ls: Seq<Seq<char>>) -> Option<Seq<char>>
    decreases ls.len(),
{
    if ls.len() == 0 {
        None
    } else {
        match value_in(ls[0], "default_model"@) {
            Some(v) => Some(v),
            None => default_model(ls.drop_first()),
        }
    }
}

/// The display name in the section with the given header, by its first line
/// that names one; `inside` says whether the lines begin in the section.
pub open spec fn display_name(
    ls: Seq<Seq<char>>,
    header: Seq<char>,
    inside: bool,
) -> Option<Seq<char>>
    decreases ls.len(),
{
    if ls.len() == 0 {
        None
    } else {
        let line = trim(ls[0]);
        if line.len() > 0 && line[0] == '[' {
            display_name(ls.drop_first(), header, line == header)
        } else {
            match value_in(line, "display_name"@) {
                Some(v) => if inside {
                    Some(v)
                } else {
                    display_name(ls.drop_first(), header, inside)
                },
                None => display_name(ls.drop_first(), header, inside),
            }
        }
    }
}

/// The header of a model's section.
pub open spec fn model_header(id: Seq<char>) -> Seq<char> {
    "[models.\""@ + id + "\"]"@
}

/// The name of the configured model: its display name, else its identifier,
/// else that of the agent.
pub open spec fn configured_model(config: Option<Seq<char>>) -> Seq<char> {
    match config {
        None => "kimi-code"@,
        Some(text) => match default_model(lines(text)) {
            None => "kimi-code"@,
            Some(id) => match display_name(lines(text), model_header(id), false) {
                Some(name) => name,
                None => id,
            },
        },
    }
}

/// The default model, by the first line that names one.
fn default_model_of(ls: &Vec<Vec<char>>) -> (r: Option<Vec<char>>)
    ensures
        opt_seq(r) == default_model(seqs(ls@)),
{
    let ghost all = seqs(ls@);
    let mut i: usize = 0;
    assert(all.skip(0) =~= all);
    while i < ls.len()
        invariant
            i <= ls@.len(),
            all == seqs(ls@),
            default_model(all) == default_model(all.skip(i as int)),
        decreases ls@.len() - i,
    {
        assert(all.skip(i as int)[0] == ls@[i as int]@);
        assert(all.skip(i as int).drop_first() =~= all.skip(i + 1));
        if let Some(v) = value_of(ls[i].as_slice(), "default_model") {
            return Some(v);
        }
        i += 1;
    }
    None
}

/// The display name in the section with the given header.
fn display_name_of(ls: &Vec<Vec<char>>, header: &str) -> (r: Option<Vec<char>>)
    ensures
        opt_seq(r) == display_name(seqs(ls@), header@, false),
{
    let ghost all = seqs(ls@);
    let mut inside = false;
    let mut i: usize = 0;
    assert(all.skip(0) =~= all);
    while i < ls.len()
        invariant
            i <= ls@.len(),
            all == seqs(ls@),
            display_name(all, header@, false) == display_name(all.skip(i as int), header@, inside),
        decreases ls@.len() - i,
    {
        assert(all.skip(i as int)[0] == ls@[i as int]@);
        assert(all.skip(i as int).drop_first() =~= all.skip(i + 1));
        let line = trim_chars(ls[i].as_slice());
        if line.len() > 0 && line[0] == '[' {
            inside = text_eq(string_of(line.as_slice()).as_str(), header);
        } else if inside {
            if let Some(v) = value_of(line.as_slice(), "display_name") {
                return Some(v);
            }
        }
        i += 1;
    }
    None
}

/// The name of the configured model, by the text of the configuration, where
/// it can be read.
pub fn read_kimi_model(config: Option<&str>) -> (r: String)
    ensures
        r@ == configured_model(crate::json::opt_chars(config)),
{
    let text = match config {
        Some(t) => t,
        None => {
            return "kimi-code".to_owned();
        },
    };
    let ls = lines_of(chars_of(text).as_slice());
    let id = match default_model_of(&ls) {
        Some(v) => v,
        None => {
            return "kimi-code".to_owned();
        },
    };
    let model = string_of(id.as_slice());
    let mut header = "[models.\"".to_owned();
    header.append(model.as_str());
    header.append("\"]");
    match display_name_of(&ls, header.as_str()) {
        Some(name) => string_of(name.as_slice()),
        None => model,
    }
}

/// Where the configuration stands.
#[derive(Clone, Copy, PartialEq, Eq, Structural, Debug)]
pub enum ConfigRoot {
    /// Where the environment says.
    Named,
    /// In the home directory, under `.kimi-code`.
    KimiCode,
    /// In the home directory, under `.kimi`.
    Legacy,
}

/// What is in a directory that may hold the configuration.
#[derive(Clone, Copy, PartialEq, Eq, Structural, Debug)]
pub struct RootFacts {
    /// Whether it is a directory.
    pub is_dir: bool,
    /// Whether it has a directory of sessions.
    pub has_sessions: bool,
    /// Whether it has a session index.
    pub has_index: bool,
}

impl RootFacts {
    /// Whether it holds sessions.
    pub open spec fn is_root(self) -> bool {
        self.is_dir && self.has_sessions
    }
}

/// Whether a directory holds the sessions of kimi-code.
pub fn is_kimi_root(facts: RootFacts) -> (r: bool)
    ensures
        r == facts.is_root(),
{
    facts.is_dir && facts.has_sessions
}

/// Where the configuration stands: in the directory that the environment
/// names, where it names one; else under the current name, unless only the
/// legacy one holds sessions, or both do and only the legacy one has an index.
pub open spec fn root_choice(
    named: bool,
    kimi_code: RootFacts,
    legacy: RootFacts,
) -> ConfigRoot {
    if named {
        ConfigRoot::Named
    } else if legacy.is_root() && (!kimi_code.is_root() || (legacy.has_index
        && !kimi_code.has_index)) {
        ConfigRoot::Legacy
    } else {
        ConfigRoot::KimiCode
    }
}

/// Where the configuration stands, by whether the environment names a
/// directory, and what is in the two of the home directory.
pub fn kimi_config_root(named: bool, kimi_code: RootFacts, legacy: RootFacts) -> (r: ConfigRoot)
    ensures
        r == root_choice(named, kimi_code, legacy),
{
    if named {
        return ConfigRoot::Named;
    }
    let mut best: Option<(bool, ConfigRoot)> = None;
    if is_kimi_root(kimi_code) {
        best = Some((kimi_code.has_index, ConfigRoot::KimiCode));
    }
    if is_kimi_root(legacy) {
        match best {
            Some((indexed, _)) => {
                if legacy.has_index && !indexed {
                    best = Some((true, ConfigRoot::Legacy));
                }
            },
            None => {
                best = Some((legacy.has_index, ConfigRoot::Legacy));
            },
        }
    }
    match best {
        Some((_, root)) => root,
        None => ConfigRoot::KimiCode,
    }
}

} // verus!
