//! What is found in a document, and in a log of them.
use crate::json::Json;
use crate::json::JsonNumber;
use crate::json::JsonTree;
use crate::json::json_text;
use crate::json::member;
use crate::json::opt_chars;
use crate::json::opt_tree;
use crate::jsonl::ends_line;
use crate::jsonl::find_byte;
use crate::jsonl::lemma_find_byte;
use crate::jsonl::log_bytes;
use crate::jsonl::log_documents;
use crate::jsonl::piece;
use crate::jsonl::piece_len;
use crate::jsonl::readable;
use crate::jsonl::trees;
use crate::model::opt_string;
use crate::text::seqs;
use crate::text::strs;
use crate::text::trim;
use vstd::prelude::*;
use vstd::utf8::decode_utf8;
use vstd::utf8::valid_utf8;

verus! {

proof fn lemma_member(members: Seq<(Seq<char>, JsonTree)>, key: Seq<char>, i: int)
    requires
        0 <= i < members.len(),
        members[i].0 == key,
        forall|k: int| 0 <= k < i ==> (#[trigger] members[k]).0 != key,
    ensures
        member(members, key) == Some(members[i].1),
    decreases i,
{
    if i > 0 {
        let rest = members.drop_first();
        assert(members[0].0 != key);
        assert(rest[i - 1] == members[i]);
        assert forall|k: int| 0 <= k < i - 1 implies (#[trigger] rest[k]).0 != key by {
            assert(members[k + 1].0 != key);
        }
        lemma_member(rest, key, i - 1);
    }
}

proof fn lemma_no_member(members: Seq<(Seq<char>, JsonTree)>, key: Seq<char>)
    requires
        forall|k: int| 0 <= k < members.len() ==> (#[trigger] members[k]).0 != key,
    ensures
        member(members, key) is None,
    decreases members.len(),
{
    if members.len() > 0 {
        let rest = members.drop_first();
        assert(members[0].0 != key);
        assert forall|k: int| 0 <= k < rest.len() implies (#[trigger] rest[k]).0 != key by {
            assert(members[k + 1].0 != key);
        }
        lemma_no_member(rest, key);
    }
}

/// A member of an object is found by its own name, the first of that name; none
/// is found where none has the name, nor in what is no object.
pub proof fn law_member_is_found_by_name(
    members: Seq<(Seq<char>, JsonTree)>,
    key: Seq<char>,
    i: int,
)
    ensures
        0 <= i < members.len() && members[i].0 == key && (forall|k: int|
            0 <= k < i ==> (#[trigger] members[k]).0 != key) ==> JsonTree::Object(members).get(key)
            == Some(members[i].1),
        (forall|k: int| 0 <= k < members.len() ==> (#[trigger] members[k]).0 != key)
            ==> JsonTree::Object(members).get(key) is None,
{
    if 0 <= i < members.len() && members[i].0 == key && (forall|k: int|
        0 <= k < i ==> (#[trigger] members[k]).0 != key) {
        lemma_member(members, key, i);
    }
    if forall|k: int| 0 <= k < members.len() ==> (#[trigger] members[k]).0 != key {
        lemma_no_member(members, key);
    }
}

/// A text is read from a string alone, a count from a whole number alone, and
/// bits from a number alone.
pub proof fn law_values_are_of_their_kind(v: JsonTree, key: Seq<char>)
    ensures
        !(v is Object) ==> v.get(key) is None,
        v is Text ==> v.as_str() == Some(v->Text_0),
        !(v is Text) ==> v.as_str() is None,
        v is Number ==> v.as_u64() == v->Number_0.unsigned && v.as_bits() == Some(
            v->Number_0.bits,
        ),
        !(v is Number) ==> v.as_u64() is None && v.as_bits() is None,
        v.get_str(key) == match v.get(key) {
            Some(JsonTree::Text(s)) => Some(s),
            _ => None,
        },
        v.get_u64(key) == match v.get(key) {
            Some(JsonTree::Number(n)) => n.unsigned,
            _ => None,
        },
{
}

/// Whether the bytes hold no line feed.
pub open spec fn is_one_line(line: Seq<u8>) -> bool {
    forall|i: int| 0 <= i < line.len() ==> #[trigger] line[i] != 10
}

/// The document that a line holds, where it is one.
pub open spec fn document_of(line: Seq<u8>) -> Seq<JsonTree> {
    match json_text(trim(decode_utf8(line))) {
        Some(doc) => if trim(decode_utf8(line)).len() > 0 {
            seq![doc]
        } else {
            Seq::empty()
        },
        None => Seq::empty(),
    }
}

proof fn lemma_first_line(line: Seq<u8>, rest: Seq<u8>)
    requires
        is_one_line(line),
        line.len() <= 10_485_760,
    ensures
        find_byte(line.push(10) + rest, 10) == line.len(),
        piece_len(line.push(10) + rest) == line.len() + 1,
        piece(line.push(10) + rest) == line.push(10),
        (line.push(10) + rest).skip(line.len() as int + 1) == rest,
{
    let data = line.push(10) + rest;
    lemma_find_byte(data, 10);
    assert(data[line.len() as int] == 10);
    let i = find_byte(data, 10) as int;
    if i < line.len() {
        assert(data[i] == line[i]);
    }
    assert(piece(data) =~= line.push(10));
    assert(data.skip(line.len() as int + 1) =~= rest);
}

/// A log is read line by line: a line of text that is no longer than ten
/// mebibytes is read whole, gives its document where it is one, and is followed
/// by the rest. A line that is no text ends the reading before it.
pub proof fn law_log_is_read_by_lines(line: Seq<u8>, rest: Seq<u8>)
    requires
        is_one_line(line),
        line.len() <= 10_485_760,
    ensures
        valid_utf8(line.push(10)) ==> log_documents(line.push(10) + rest) == document_of(
            line.push(10),
        ) + log_documents(rest),
        valid_utf8(line.push(10)) ==> log_bytes(line.push(10) + rest) == line.len() + 1 + log_bytes(
            rest,
        ),
        !valid_utf8(line.push(10)) ==> log_documents(line.push(10) + rest).len() == 0 && log_bytes(
            line.push(10) + rest,
        ) == 0,
{
    let data = line.push(10) + rest;
    lemma_first_line(line, rest);
    assert(ends_line(piece(data)));
    if valid_utf8(line.push(10)) {
        assert(readable(data));
        assert(Seq::<JsonTree>::empty() + log_documents(rest) =~= log_documents(rest));
    }
}

/// A line that is not finished yet, and no longer than ten mebibytes, tells
/// nothing, and none of it counts as read.
pub proof fn law_unfinished_line_waits(line: Seq<u8>)
    requires
        is_one_line(line),
        line.len() <= 10_485_760,
    ensures
        log_documents(line).len() == 0,
        log_bytes(line) == 0,
{
    lemma_find_byte(line, 10);
    if line.len() > 0 {
        assert(piece(line) =~= line);
        assert(line.last() != 10);
        assert(!readable(line));
    }
}

/// A line that is longer than ten mebibytes is not read whole: a first piece of
/// it counts as read, tells what it would as a line, and ends the reading.
pub proof fn law_overlong_line_is_read_in_pieces(p: Seq<u8>, rest: Seq<u8>)
    requires
        is_one_line(p),
        p.len() == 10_485_761,
        valid_utf8(p),
        trim(decode_utf8(p)).len() > 0,
    ensures
        log_documents(p + rest) == document_of(p),
        log_bytes(p + rest) == p.len(),
{
    let data = p + rest;
    lemma_find_byte(data, 10);
    if find_byte(data, 10) < p.len() {
        assert(data[find_byte(data, 10) as int] == p[find_byte(data, 10) as int]);
    }
    assert(piece_len(data) == p.len());
    assert(piece(data) =~= p);
    assert(p.last() != 10);
    assert(readable(data));
}

/// A document stands for what it holds.
pub proof fn law_document_stands_for_what_it_holds(b: bool, n: JsonNumber, s: String)
    ensures
        Json::Null@ == JsonTree::Null,
        Json::Bool(b)@ == JsonTree::Bool(b),
        Json::Number(n)@ == JsonTree::Number(n),
        Json::Text(s)@ == JsonTree::Text(s@),
{
}

/// A list and an object stand for what their items stand for, in order.
pub proof fn law_items_stand_for_what_they_hold(
    items: Vec<Json>,
    members: Vec<(String, Json)>,
    i: int,
)
    ensures
        Json::Array(items)@ is Array,
        Json::Array(items)@->Array_0.len() == items@.len(),
        0 <= i < items@.len() ==> Json::Array(items)@->Array_0[i] == items@[i]@,
        Json::Object(members)@ is Object,
        Json::Object(members)@->Object_0.len() == members@.len(),
        0 <= i < members@.len() ==> Json::Object(members)@->Object_0[i] == (
            members@[i].0@,
            members@[i].1@,
        ),
{
}

/// What may be there stands for what is there, and several things for what each
/// of them is.
pub proof fn law_what_is_there_stands_for_itself(
    s: String,
    t: &str,
    j: &Json,
    docs: Seq<Json>,
    texts: Seq<String>,
    chars: Seq<Vec<char>>,
    i: int,
)
    ensures
        opt_string(Some(s)) == Some(s@) && opt_string(None) is None,
        opt_chars(Some(t)) == Some(t@) && opt_chars(None) is None,
        opt_tree(Some(j)) == Some(j@) && opt_tree(None) is None,
        trees(docs).len() == docs.len() && strs(texts).len() == texts.len() && seqs(chars).len()
            == chars.len(),
        0 <= i < docs.len() ==> trees(docs)[i] == docs[i]@,
        0 <= i < texts.len() ==> strs(texts)[i] == texts[i]@,
        0 <= i < chars.len() ==> seqs(chars)[i] == chars[i]@,
{
}

} // verus!
