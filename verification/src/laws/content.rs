//! What is shown of messages and of the tools they call.
use crate::content::BlockKinds;
use crate::content::ToolKind;
use crate::content::block_text;
use crate::content::block_texts;
use crate::content::file_arg;
use crate::content::first_text;
use crate::content::joined_blocks;
use crate::content::shown_arg;
use crate::content::shown_text;
use crate::json::JsonTree;
use crate::kimi::wire;
use crate::model::FileOp;
use crate::pi::transcript;
use crate::policy::HostPolicy;
use crate::text::first_line;
use crate::text::flattened;
use crate::text::shortened_path;
use crate::text::truncated;
use vstd::prelude::*;

verus! {

/// A block of text carries its `text`. A block of thoughts carries its `think`,
/// or its `text` where it has none, and only where thoughts are wanted. No other
/// block carries anything.
pub proof fn law_blocks_carry_text(block: JsonTree, kinds: BlockKinds)
    ensures
        block.get_str("type"@) == Some("text"@) ==> block_text(block, kinds) == block.get_str(
            "text"@,
        ),
        block.get_str("type"@) == Some("think"@) && kinds == BlockKinds::TextAndThink
            && block.get_str("think"@) is Some ==> block_text(block, kinds) == block.get_str(
            "think"@,
        ),
        block.get_str("type"@) == Some("think"@) && kinds == BlockKinds::TextAndThink
            && block.get_str("think"@) is None ==> block_text(block, kinds) == block.get_str(
            "text"@,
        ),
        block.get_str("type"@) == Some("think"@) && kinds == BlockKinds::Text ==> block_text(
            block,
            kinds,
        ) is None,
        block.get_str("type"@) != Some("text"@) && block.get_str("type"@) != Some("think"@)
            ==> block_text(block, kinds) is None,
{
    reveal_strlit("text");
    reveal_strlit("think");
    assert("text"@.len() == 4 && "think"@.len() == 5);
}

/// The texts of blocks stand behind each other, with a blank between them; a
/// block that carries none adds nothing.
pub proof fn law_blocks_are_joined(blocks: Seq<JsonTree>, block: JsonTree, kinds: BlockKinds)
    ensures
        joined_blocks(Seq::empty(), kinds).len() == 0,
        block_text(block, kinds) is None ==> joined_blocks(blocks.push(block), kinds)
            == joined_blocks(blocks, kinds),
        block_text(block, kinds) is Some && (forall|i: int|
            0 <= i < blocks.len() ==> block_text(#[trigger] blocks[i], kinds) is None)
            ==> joined_blocks(blocks.push(block), kinds) == block_text(block, kinds)->0,
        block_text(block, kinds) is Some && (exists|i: int|
            0 <= i < blocks.len() && block_text(#[trigger] blocks[i], kinds) is Some)
            ==> joined_blocks(blocks.push(block), kinds) == joined_blocks(blocks, kinds) + seq![' ']
            + block_text(block, kinds)->0,
{
    assert(blocks.push(block).drop_last() =~= blocks);
    lemma_texts(blocks, kinds);
    let texts = block_texts(blocks, kinds);
    if let Some(t) = block_text(block, kinds) {
        assert(texts.push(t).drop_last() =~= texts);
    }
}

proof fn lemma_texts(blocks: Seq<JsonTree>, kinds: BlockKinds)
    ensures
        block_texts(blocks, kinds).len() == 0 <==> forall|i: int|
            0 <= i < blocks.len() ==> block_text(#[trigger] blocks[i], kinds) is None,
    decreases blocks.len(),
{
    if blocks.len() > 0 {
        let most = blocks.drop_last();
        lemma_texts(most, kinds);
        assert(blocks[blocks.len() - 1] == blocks.last());
        if block_texts(blocks, kinds).len() == 0 {
            assert forall|i: int| 0 <= i < blocks.len() implies block_text(
                #[trigger] blocks[i],
                kinds,
            ) is None by {
                if i < most.len() {
                    assert(block_text(most[i], kinds) is None);
                }
            }
        } else if block_texts(most, kinds).len() > 0 {
            let i = choose|i: int|
                0 <= i < most.len() && block_text(#[trigger] most[i], kinds) is Some;
            assert(block_text(blocks[i], kinds) is Some);
        }
    }
}

/// A message made of blocks is shown as its text would be; what is neither a
/// text nor blocks is shown as nothing would be. No more than 500 characters are
/// shown, of a text on one line that was made safe and then freed of secrets.
pub proof fn law_messages_are_shown_safely<P: HostPolicy>(
    policy: P,
    content: JsonTree,
    kinds: BlockKinds,
)
    ensures
        content is Array ==> shown_text(policy, Some(content), kinds) == shown_text(
            policy,
            Some(JsonTree::Text(joined_blocks(content->Array_0, kinds))),
            kinds,
        ),
        !(content is Array) && !(content is Text) ==> shown_text(policy, Some(content), kinds)
            == shown_text(policy, None, kinds),
        shown_text(policy, None, kinds) == shown_text(
            policy,
            Some(JsonTree::Text(Seq::empty())),
            kinds,
        ),
        shown_text(policy, Some(content), kinds).len() <= 500,
        content is Text ==> shown_text(policy, Some(content), kinds) == truncated(
            policy.redacted(policy.sanitized(flattened(content->Text_0, false))),
            500,
        ),
{
}

/// The path among the arguments of a tool is its `path`, else its `file_path`,
/// else its `filePath`.
pub open spec fn path_in(args: JsonTree) -> Option<Seq<char>> {
    match args.get_str("path"@) {
        Some(p) => Some(p),
        None => match args.get_str("file_path"@) {
            Some(p) => Some(p),
            None => args.get_str("filePath"@),
        },
    }
}

proof fn lemma_first_text(members: Seq<(Seq<char>, JsonTree)>, i: int)
    requires
        0 <= i < members.len(),
        members[i].1 is Text,
        forall|k: int| 0 <= k < i ==> !((#[trigger] members[k]).1 is Text),
    ensures
        first_text(members) == Some(members[i].1->Text_0),
    decreases i,
{
    if i > 0 {
        let rest = members.drop_first();
        assert(!(members[0].1 is Text));
        assert(rest[i - 1] == members[i]);
        assert forall|k: int| 0 <= k < i - 1 implies !((#[trigger] rest[k]).1 is Text) by {
            assert(!(members[k + 1].1 is Text));
        }
        lemma_first_text(rest, i - 1);
    }
}

proof fn lemma_no_text(members: Seq<(Seq<char>, JsonTree)>)
    requires
        forall|k: int| 0 <= k < members.len() ==> !((#[trigger] members[k]).1 is Text),
    ensures
        first_text(members) is None,
    decreases members.len(),
{
    if members.len() > 0 {
        let rest = members.drop_first();
        assert(!(members[0].1 is Text));
        assert forall|k: int| 0 <= k < rest.len() implies !((#[trigger] rest[k]).1 is Text) by {
            assert(!(members[k + 1].1 is Text));
        }
        lemma_no_text(rest);
    }
}

/// Of a shell's arguments the first line of the command is shown, cut and freed
/// of secrets; of a file tool's, the end of the path. Of another tool's, the
/// first line of its command, else the end of its path, else the first of its
/// arguments that is a text. A file is touched where a path is shown.
pub proof fn law_arguments_are_shown<P: HostPolicy>(policy: P, args: JsonTree, i: int)
    ensures
        ({
            let command = args.get_str("command"@);
            let path = path_in(args);
            &&& command is Some ==> shown_arg(policy, ToolKind::Shell, args) == policy.redacted(
                truncated(first_line(command->0), 40),
            )
            &&& command is None ==> shown_arg(policy, ToolKind::Shell, args) == policy.redacted(
                Seq::empty(),
            )
            &&& file_arg(ToolKind::Shell, args) is None
            &&& path is Some ==> shown_arg(policy, ToolKind::File, args) == shortened_path(path->0)
            &&& path is None ==> shown_arg(policy, ToolKind::File, args).len() == 0
            &&& file_arg(ToolKind::File, args) == path
            &&& command is Some ==> shown_arg(policy, ToolKind::Other, args) == truncated(
                first_line(command->0),
                40,
            ) && file_arg(ToolKind::Other, args) is None
            &&& command is None && path is Some ==> shown_arg(policy, ToolKind::Other, args)
                == shortened_path(path->0)
            &&& command is None ==> file_arg(ToolKind::Other, args) == path
            &&& command is None && path is None && args is Object ==> ({
                let members = args->Object_0;
                &&& 0 <= i < members.len() && members[i].1 is Text && (forall|k: int|
                    0 <= k < i ==> !((#[trigger] members[k]).1 is Text)) ==> shown_arg(
                    policy,
                    ToolKind::Other,
                    args,
                ) == truncated(members[i].1->Text_0, 40)
                &&& (forall|k: int|
                    0 <= k < members.len() ==> !((#[trigger] members[k]).1 is Text))
                    ==> shown_arg(policy, ToolKind::Other, args).len() == 0
            })
        }),
{
    assert(first_line(Seq::empty()) =~= Seq::<char>::empty());
    let none = Seq::<char>::empty();
    crate::laws::text::law_text_is_split_at_separators(none, '/', none);
    assert(shortened_path(none) == none);
    if args is Object {
        let members = args->Object_0;
        if 0 <= i < members.len() && members[i].1 is Text && (forall|k: int|
            0 <= k < i ==> !((#[trigger] members[k]).1 is Text)) {
            lemma_first_text(members, i);
        }
        if forall|k: int| 0 <= k < members.len() ==> !((#[trigger] members[k]).1 is Text) {
            lemma_no_text(members);
        }
    }
}

/// What kimi-code's tools do to their files: some read one, some write one, some
/// edit one, and those alone; the shell takes a command.
pub proof fn law_tools_of_kimi(name: Seq<char>)
    ensures
        wire::file_op(name) == Some(FileOp::Read) <==> name == "ReadFile"@ || name
            == "ReadMediaFile"@ || name == "Read"@,
        wire::file_op(name) == Some(FileOp::Write) <==> name == "WriteFile"@ || name == "Write"@,
        wire::file_op(name) == Some(FileOp::Edit) <==> name == "StrReplaceFile"@ || name
            == "Edit"@,
        wire::file_op(name) is Some <==> wire::tool_kind(name) == ToolKind::File,
        wire::tool_kind(name) == ToolKind::Shell <==> name == "Shell"@,
{
    reveal_strlit("Shell");
    reveal_strlit("ReadFile");
    reveal_strlit("ReadMediaFile");
    reveal_strlit("Read");
    reveal_strlit("WriteFile");
    reveal_strlit("Write");
    reveal_strlit("StrReplaceFile");
    reveal_strlit("Edit");
    assert("Shell"@[0] == 'S' && "Write"@[0] == 'W');
    assert("Read"@[0] == 'R' && "Edit"@[0] == 'E');
    assert("Shell"@.len() == 5 && "Write"@.len() == 5 && "Read"@.len() == 4 && "Edit"@.len() == 4);
    assert("ReadFile"@.len() == 8 && "WriteFile"@.len() == 9);
    assert("ReadMediaFile"@.len() == 13 && "StrReplaceFile"@.len() == 14);
}

/// What Pi's tools do to their files: some read one, some write one, some edit
/// one, and those alone; the shells take a command.
pub proof fn law_tools_of_pi(name: Seq<char>)
    ensures
        transcript::file_op(name) == Some(FileOp::Read) <==> name == "read"@ || name == "Read"@
            || name == "ls"@ || name == "Ls"@ || name == "glob"@ || name == "Glob"@ || name
            == "find"@ || name == "Find"@ || name == "grep"@ || name == "Grep"@,
        transcript::file_op(name) == Some(FileOp::Write) <==> name == "write"@ || name == "Write"@,
        transcript::file_op(name) == Some(FileOp::Edit) <==> name == "edit"@ || name == "Edit"@,
        transcript::file_op(name) is Some <==> transcript::tool_kind(name) == ToolKind::File,
        transcript::tool_kind(name) == ToolKind::Shell <==> name == "bash"@ || name == "Bash"@
            || name == "Shell"@,
{
    reveal_strlit("bash");
    reveal_strlit("Bash");
    reveal_strlit("Shell");
    reveal_strlit("read");
    reveal_strlit("Read");
    reveal_strlit("ls");
    reveal_strlit("Ls");
    reveal_strlit("glob");
    reveal_strlit("Glob");
    reveal_strlit("find");
    reveal_strlit("Find");
    reveal_strlit("grep");
    reveal_strlit("Grep");
    reveal_strlit("write");
    reveal_strlit("Write");
    reveal_strlit("edit");
    reveal_strlit("Edit");
    assert("bash"@[0] == 'b' && "Bash"@[0] == 'B' && "Shell"@[0] == 'S');
    assert("read"@[0] == 'r' && "Read"@[0] == 'R');
    assert("glob"@[0] == 'g' && "Glob"@[0] == 'G');
    assert("grep"@[0] == 'g' && "Grep"@[0] == 'G');
    assert("find"@[0] == 'f' && "Find"@[0] == 'F');
    assert("write"@[0] == 'w' && "Write"@[0] == 'W');
    assert("edit"@[0] == 'e' && "Edit"@[0] == 'E');
}

} // verus!
