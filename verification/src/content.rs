//! The content of messages: their text, and the tools they call.
use crate::json::opt_chars;
use crate::json::opt_tree;
use crate::json::Json;
use crate::json::JsonTree;
use crate::model::opt_string;
use crate::policy::HostPolicy;
use crate::text::chars_of;
use crate::text::first_line;
use crate::text::first_line_of;
use crate::text::flatten_lines;
use crate::text::flattened;
use crate::text::join;
use crate::text::join_spaced;
use crate::text::seqs;
use crate::text::shorten_path;
use crate::text::shortened_path;
use crate::text::string_of;
use crate::text::text_eq;
use crate::text::truncate;
use crate::text::truncated;
use vstd::prelude::*;

verus! {

/// The string, or nothing where there is none.
pub open spec fn or_empty(s: Option<Seq<char>>) -> Seq<char> {
    match s {
        Some(t) => t,
        None => Seq::empty(),
    }
}

/// What kind of event this is.
pub open spec fn event_type(event: JsonTree) -> Seq<char> {
    or_empty(event.get_str("type"@))
}

/// The name of the tool that is called.
pub open spec fn called_tool(call: JsonTree) -> Seq<char> {
    match call.get_str("name"@) {
        Some(n) => n,
        None => "?"@,
    }
}

/// The document, or null where there is none.
pub open spec fn or_null(v: Option<JsonTree>) -> JsonTree {
    match v {
        Some(x) => x,
        None => JsonTree::Null,
    }
}

/// The count that the member named `key` holds, or 0.
pub open spec fn count_of(v: JsonTree, key: Seq<char>) -> u64 {
    match v.get_u64(key) {
        Some(n) => n,
        None => 0,
    }
}

/// Whether the document is a string that equals `want`, where a missing one
/// counts as empty.
pub fn str_is(s: Option<&str>, want: &str) -> (r: bool)
    ensures
        r == (or_empty(opt_chars(s)) == want@),
{
    match s {
        Some(t) => text_eq(t, want),
        None => {
            proof {
                reveal_strlit("");
                assert(""@ =~= Seq::<char>::empty());
            }
            text_eq("", want)
        },
    }
}

/// The count that the member named `key` holds, or 0.
pub fn count_at(v: &Json, key: &str) -> (r: u64)
    ensures
        r == count_of(v@, key@),
{
    match v.get_u64(key) {
        Some(n) => n,
        None => 0,
    }
}

/// Which kinds of content blocks carry text.
#[derive(Clone, Copy, PartialEq, Eq, Structural, Debug)]
pub enum BlockKinds {
    Text,
    TextAndThink,
}

/// The text of one content block. A block of thoughts names it `think`, or
/// `text` where it has no `think`.
pub open spec fn block_text(block: JsonTree, kinds: BlockKinds) -> Option<Seq<char>> {
    let t = or_empty(block.get_str("type"@));
    let thinks = kinds == BlockKinds::TextAndThink && t == "think"@;
    if thinks && block.get_str("think"@) is Some {
        block.get_str("think"@)
    } else if thinks || t == "text"@ {
        block.get_str("text"@)
    } else {
        None
    }
}

/// The texts of the content blocks that carry one.
pub open spec fn block_texts(blocks: Seq<JsonTree>, kinds: BlockKinds) -> Seq<Seq<char>>
    decreases blocks.len(),
{
    if blocks.len() == 0 {
        Seq::empty()
    } else {
        let rest = block_texts(blocks.drop_last(), kinds);
        match block_text(blocks.last(), kinds) {
            Some(t) => rest.push(t),
            None => rest,
        }
    }
}

/// The texts of the blocks, with a space between neighbours.
pub open spec fn joined_blocks(blocks: Seq<JsonTree>, kinds: BlockKinds) -> Seq<char> {
    join(block_texts(blocks, kinds), seq![' '])
}

/// The text that a message content holds.
pub open spec fn raw_text(content: Option<JsonTree>, kinds: BlockKinds) -> Seq<char> {
    match content {
        Some(JsonTree::Text(s)) => s,
        Some(JsonTree::Array(blocks)) => joined_blocks(blocks, kinds),
        _ => Seq::empty(),
    }
}

/// What is shown of a message content: one line, made safe, and at most 500
/// characters long.
pub open spec fn shown_text<P: HostPolicy>(
    policy: P,
    content: Option<JsonTree>,
    kinds: BlockKinds,
) -> Seq<char> {
    truncated(
        policy.redacted(policy.sanitized(flattened(raw_text(content, kinds), false))),
        500,
    )
}

/// The text of one content block.
pub fn text_of_block(block: &Json, kinds: BlockKinds) -> (r: Option<&str>)
    ensures
        opt_chars(r) == block_text(block@, kinds),
{
    proof {
        reveal_strlit("text");
        reveal_strlit("think");
        assert("text"@.len() != "think"@.len());
    }
    if kinds == BlockKinds::TextAndThink && str_is(block.get_str("type"), "think") {
        match block.get_str("think") {
            Some(t) => Some(t),
            None => block.get_str("text"),
        }
    } else if str_is(block.get_str("type"), "text") {
        block.get_str("text")
    } else {
        None
    }
}

/// The texts of the blocks, with a space between neighbours.
pub fn join_blocks(blocks: &Vec<Json>, kinds: BlockKinds) -> (r: String)
    ensures
        r@ == joined_blocks(crate::jsonl::trees(blocks@), kinds),
{
    let ghost all = crate::jsonl::trees(blocks@);
    let mut parts: Vec<Vec<char>> = Vec::new();
    let mut i: usize = 0;
    assert(all.take(0) =~= Seq::empty());
    assert(seqs(parts@) =~= block_texts(all.take(0), kinds));
    while i < blocks.len()
        invariant
            i <= blocks@.len(),
            all == crate::jsonl::trees(blocks@),
            seqs(parts@) == block_texts(all.take(i as int), kinds),
        decreases blocks@.len() - i,
    {
        let ghost before = seqs(parts@);
        assert(all.take(i + 1).drop_last() =~= all.take(i as int));
        assert(all.take(i + 1).last() == blocks@[i as int]@);
        match text_of_block(&blocks[i], kinds) {
            Some(t) => {
                parts.push(chars_of(t));
                assert(seqs(parts@) =~= before.push(t@));
            },
            None => {},
        }
        i += 1;
    }
    assert(all.take(i as int) =~= all);
    string_of(join_spaced(&parts).as_slice())
}

/// The text that a message content holds, as it is shown.
pub fn extract_text_from_content<P: HostPolicy>(
    policy: &P,
    content: Option<&Json>,
    kinds: BlockKinds,
) -> (r: String)
    ensures
        r@ == shown_text(*policy, opt_tree(content), kinds),
{
    let raw = match content {
        Some(Json::Text(s)) => s.clone(),
        Some(Json::Array(blocks)) => {
            assert(content->0@->Array_0 =~= crate::jsonl::trees(blocks@));
            join_blocks(blocks, kinds)
        },
        _ => String::new(),
    };
    let cleaned = flatten_lines(raw.as_str(), false);
    let safe = policy.sanitize_terminal_text(cleaned.as_str());
    let redacted = policy.redact_secrets(safe.as_str());
    truncate(redacted.as_str(), 500)
}

/// What the arguments of a tool hold.
#[derive(Clone, Copy, PartialEq, Eq, Structural, Debug)]
pub enum ToolKind {
    /// A command line.
    Shell,
    /// A path.
    File,
    /// Something else.
    Other,
}

/// The path among the arguments of a tool.
pub open spec fn path_arg(args: JsonTree) -> Option<Seq<char>> {
    if args.get_str("path"@) is Some {
        args.get_str("path"@)
    } else if args.get_str("file_path"@) is Some {
        args.get_str("file_path"@)
    } else {
        args.get_str("filePath"@)
    }
}

/// The first string among the members of an object.
pub open spec fn first_text(members: Seq<(Seq<char>, JsonTree)>) -> Option<Seq<char>>
    decreases members.len(),
{
    if members.len() == 0 {
        None
    } else {
        match members[0].1.as_str() {
            Some(s) => Some(s),
            None => first_text(members.drop_first()),
        }
    }
}

/// The first string among the arguments of a tool.
pub open spec fn any_text(args: JsonTree) -> Option<Seq<char>> {
    match args {
        JsonTree::Object(members) => first_text(members),
        _ => None,
    }
}

/// What is shown of the arguments of a tool.
pub open spec fn shown_arg<P: HostPolicy>(policy: P, kind: ToolKind, args: JsonTree) -> Seq<char> {
    match kind {
        ToolKind::Shell => policy.redacted(
            truncated(first_line(or_empty(args.get_str("command"@))), 40),
        ),
        ToolKind::File => shortened_path(or_empty(path_arg(args))),
        ToolKind::Other => match args.get_str("command"@) {
            Some(cmd) => truncated(first_line(cmd), 40),
            None => match path_arg(args) {
                Some(p) => shortened_path(p),
                None => truncated(or_empty(any_text(args)), 40),
            },
        },
    }
}

/// The file that a tool works on.
pub open spec fn file_arg(kind: ToolKind, args: JsonTree) -> Option<Seq<char>> {
    match kind {
        ToolKind::Shell => None,
        ToolKind::File => path_arg(args),
        ToolKind::Other => if args.get_str("command"@) is Some {
            None
        } else {
            path_arg(args)
        },
    }
}

/// The path among the arguments of a tool.
fn path_of(args: &Json) -> (r: Option<String>)
    ensures
        opt_string(r) == path_arg(args@),
{
    match args.get_str("path") {
        Some(p) => Some(p.to_owned()),
        None => match args.get_str("file_path") {
            Some(p) => Some(p.to_owned()),
            None => match args.get_str("filePath") {
                Some(p) => Some(p.to_owned()),
                None => None,
            },
        },
    }
}

/// The first string among the arguments of a tool.
fn any_text_of(args: &Json) -> (r: Option<String>)
    ensures
        opt_string(r) == any_text(args@),
{
    match args {
        Json::Object(members) => {
            let ghost all = args@->Object_0;
            let mut i: usize = 0;
            assert(all.skip(0) =~= all);
            while i < members.len()
                invariant
                    i <= members@.len(),
                    args@ == JsonTree::Object(all),
                    all.len() == members@.len(),
                    forall|k: int|
                        0 <= k < all.len() ==> #[trigger] all[k] == (
                            members@[k].0@,
                            members@[k].1@,
                        ),
                    first_text(all) == first_text(all.skip(i as int)),
                decreases members@.len() - i,
            {
                assert(all.skip(i as int)[0] == all[i as int]);
                assert(all.skip(i as int).drop_first() =~= all.skip(i + 1));
                match members[i].1.as_str() {
                    Some(s) => {
                        return Some(s.to_owned());
                    },
                    None => {},
                }
                i += 1;
            }
            None
        },
        _ => None,
    }
}

/// What is shown of the arguments of a tool, and the file it works on.
pub fn parse_tool_args<P: HostPolicy>(policy: &P, kind: ToolKind, args: &Json) -> (r: (
    String,
    Option<String>,
))
    ensures
        r.0@ == shown_arg(*policy, kind, args@),
        opt_string(r.1) == file_arg(kind, args@),
{
    let path = path_of(args);
    match kind {
        ToolKind::Shell => {
            let first = match args.get_str("command") {
                Some(cmd) => first_line_of(cmd),
                None => {
                    proof {
                        reveal_strlit("");
                        assert(""@ =~= Seq::<char>::empty());
                    }
                    first_line_of("")
                },
            };
            let cut = truncate(first.as_str(), 40);
            (policy.redact_secrets(cut.as_str()), None)
        },
        ToolKind::File => {
            let shown = match &path {
                Some(p) => shorten_path(p.as_str()),
                None => {
                    proof {
                        reveal_strlit("");
                        assert(""@ =~= Seq::<char>::empty());
                    }
                    shorten_path("")
                },
            };
            (shown, path)
        },
        ToolKind::Other => {
            match args.get_str("command") {
                Some(cmd) => {
                    let first = first_line_of(cmd);
                    (truncate(first.as_str(), 40), None)
                },
                None => match path {
                    Some(p) => (shorten_path(p.as_str()), Some(p)),
                    None => {
                        let first = match any_text_of(args) {
                            Some(s) => s,
                            None => String::new(),
                        };
                        (truncate(first.as_str(), 40), None)
                    },
                },
            }
        },
    }
}

} // verus!
