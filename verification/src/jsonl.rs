//! Append-only logs of one JSON document per line, read piece by piece.
use crate::json::json_text;
use crate::json::parse_json;
use crate::json::Json;
use crate::json::JsonTree;
use crate::text::trim;
use crate::text::trim_str;
use vstd::prelude::*;
use vstd::slice::slice_subrange;
use vstd::utf8::decode_utf8;
use vstd::utf8::encode_utf8;
use vstd::utf8::encode_utf8_decode_utf8;
use vstd::utf8::valid_utf8;

verus! {

/// The longest line that is read whole, in bytes.
pub const MAX_LINE_BYTES: usize = 10_485_760;

/// The line feed, which ends a line.
pub const LINE_FEED: u8 = 10;

/// The error of the standard library's UTF-8 decoder.
#[verifier::external_type_specification]
#[verifier::external_body]
pub struct ExUtf8Error(core::str::Utf8Error);

/// `core::str::from_utf8` accepts the valid encodings of UTF-8 alone, and hands
/// back the text that the bytes encode.
pub assume_specification[ core::str::from_utf8 ](bytes: &[u8]) -> (r: Result<
    &str,
    core::str::Utf8Error,
>)
    ensures
        r is Ok <==> valid_utf8(bytes@),
        r matches Ok(s) ==> encode_utf8(s@) == bytes@,
;

/// What the documents of a vector stand for.
pub open spec fn trees(v: Seq<Json>) -> Seq<JsonTree> {
    v.map_values(|j: Json| j@)
}

/// The index of the first `b` in `data`, or the length where there is none.
pub open spec fn find_byte(data: Seq<u8>, b: u8) -> nat
    decreases data.len(),
{
    if data.len() == 0 || data[0] == b {
        0
    } else {
        1 + find_byte(data.drop_first(), b)
    }
}

/// The length of the next piece of `data`: up to and with the first line feed,
/// but no more than one byte over the longest line.
pub open spec fn piece_len(data: Seq<u8>) -> nat {
    let i = find_byte(data, LINE_FEED);
    if i < data.len() && i <= MAX_LINE_BYTES {
        i + 1
    } else if data.len() <= MAX_LINE_BYTES {
        data.len()
    } else {
        (MAX_LINE_BYTES + 1) as nat
    }
}

/// The next piece of `data`.
pub open spec fn piece(data: Seq<u8>) -> Seq<u8> {
    data.take(piece_len(data) as int)
}

/// Whether the piece is a whole line.
pub open spec fn ends_line(p: Seq<u8>) -> bool {
    p.len() > 0 && p.last() == LINE_FEED
}

/// Whether the piece is the beginning of a line that is too long to be read
/// whole.
pub open spec fn is_overlong(p: Seq<u8>) -> bool {
    !ends_line(p) && p.len() > MAX_LINE_BYTES
}

/// Whether reading goes on: there is a next piece, it is text, and it is not
/// the last line, still to be finished.
pub open spec fn readable(data: Seq<u8>) -> bool {
    &&& data.len() > 0
    &&& valid_utf8(piece(data))
    &&& ends_line(piece(data)) || is_overlong(piece(data))
}

/// The line that a piece holds, without white space around it.
pub open spec fn line_of(p: Seq<u8>) -> Seq<char> {
    trim(decode_utf8(p))
}

/// The document that a line denotes, where it denotes one.
pub open spec fn line_documents(line: Seq<char>) -> Seq<JsonTree> {
    match json_text(line) {
        Some(v) => seq![v],
        None => Seq::empty(),
    }
}

/// The documents of the whole lines of a log, up to its first unreadable or
/// overlong piece. An overlong piece counts for a line of its own, unless it is
/// blank. An unfinished last line waits until it is whole.
pub open spec fn log_documents(data: Seq<u8>) -> Seq<JsonTree>
    decreases data.len(),
{
    let p = piece(data);
    let rest = data.skip(piece_len(data) as int);
    if !readable(data) {
        Seq::empty()
    } else if line_of(p).len() == 0 {
        log_documents(rest)
    } else if ends_line(p) {
        line_documents(line_of(p)) + log_documents(rest)
    } else {
        line_documents(line_of(p))
    }
}

/// The bytes of a log that count as read: those of its whole lines and of an
/// overlong piece that is not blank.
pub open spec fn log_bytes(data: Seq<u8>) -> nat
    decreases data.len(),
{
    let p = piece(data);
    let rest = data.skip(piece_len(data) as int);
    if !readable(data) {
        0
    } else if line_of(p).len() == 0 {
        if ends_line(p) {
            p.len() + log_bytes(rest)
        } else {
            log_bytes(rest)
        }
    } else if ends_line(p) {
        p.len() + log_bytes(rest)
    } else {
        p.len()
    }
}

pub proof fn lemma_find_byte(data: Seq<u8>, b: u8)
    ensures
        find_byte(data, b) <= data.len(),
        find_byte(data, b) < data.len() ==> data[find_byte(data, b) as int] == b,
        forall|i: int| 0 <= i < find_byte(data, b) ==> data[i] != b,
    decreases data.len(),
{
    if data.len() > 0 && data[0] != b {
        lemma_find_byte(data.drop_first(), b);
        assert forall|i: int| 0 <= i < find_byte(data, b) implies data[i] != b by {
            if i > 0 {
                assert(data.drop_first()[i - 1] != b);
            }
        }
    }
}

pub proof fn lemma_log_bytes(data: Seq<u8>)
    ensures
        log_bytes(data) <= data.len(),
    decreases data.len(),
{
    if readable(data) {
        lemma_find_byte(data, LINE_FEED);
        lemma_log_bytes(data.skip(piece_len(data) as int));
    }
}

/// A log of which nothing counts as read tells nothing.
pub proof fn lemma_unread_log_is_empty(data: Seq<u8>)
    requires
        log_bytes(data) == 0,
    ensures
        log_documents(data) == Seq::<JsonTree>::empty(),
    decreases data.len(),
{
    if readable(data) {
        lemma_find_byte(data, LINE_FEED);
        lemma_unread_log_is_empty(data.skip(piece_len(data) as int));
    }
}

/// The length of the next piece of `data` from `pos` on.
fn next_piece(data: &[u8], pos: usize) -> (n: usize)
    requires
        pos < data@.len(),
    ensures
        n == piece_len(data@.skip(pos as int)),
        1 <= n <= data@.len() - pos,
{
    let ghost tail = data@.skip(pos as int);
    let len = data.len();
    let mut i: usize = 0;
    assert(tail.skip(0) =~= tail);
    proof {
        lemma_find_byte(tail, LINE_FEED);
    }
    while i <= MAX_LINE_BYTES && i < len - pos
        invariant
            pos < len,
            len == data@.len(),
            i <= len - pos,
            i <= MAX_LINE_BYTES + 1,
            tail == data@.skip(pos as int),
            find_byte(tail, LINE_FEED) <= tail.len(),
            find_byte(tail, LINE_FEED) == i + find_byte(tail.skip(i as int), LINE_FEED),
        decreases len - pos - i,
    {
        assert(tail.skip(i as int)[0] == data@[pos + i]);
        if data[pos + i] == LINE_FEED {
            return i + 1;
        }
        assert(tail.skip(i as int).drop_first() =~= tail.skip(i + 1));
        i += 1;
    }
    i
}

/// Reads the documents of a log, and counts the bytes that need not be read
/// again.
pub fn read_log(data: &[u8]) -> (r: (Vec<Json>, usize))
    ensures
        trees(r.0@) == log_documents(data@),
        r.1 == log_bytes(data@),
        r.1 <= data@.len(),
{
    let mut events: Vec<Json> = Vec::new();
    let mut consumed: usize = 0;
    let mut pos: usize = 0;
    let len = data.len();
    assert(data@.skip(0) =~= data@);
    assert(trees(events@) + log_documents(data@) =~= log_documents(data@));
    proof {
        lemma_log_bytes(data@);
    }
    while pos < len
        invariant
            pos <= len,
            len == data@.len(),
            consumed <= pos,
            trees(events@) + log_documents(data@.skip(pos as int)) == log_documents(data@),
            consumed + log_bytes(data@.skip(pos as int)) == log_bytes(data@),
            log_bytes(data@) <= data@.len(),
        decreases len - pos,
    {
        let ghost tail = data@.skip(pos as int);
        let ghost before = trees(events@);
        let n = next_piece(data, pos);
        let bytes = slice_subrange(data, pos, pos + n);
        assert(bytes@ =~= piece(tail));
        assert(tail.skip(n as int) =~= data@.skip(pos + n));
        let text = match core::str::from_utf8(bytes) {
            Ok(t) => t,
            Err(_) => {
                assert(trees(events@) =~= log_documents(data@));
                return (events, consumed);
            },
        };
        proof {
            encode_utf8_decode_utf8(text@);
        }
        let whole = bytes[n - 1] == LINE_FEED;
        if !whole && n <= MAX_LINE_BYTES {
            assert(trees(events@) =~= log_documents(data@));
            return (events, consumed);
        }
        let line = trim_str(text);
        pos = pos + n;
        if line.as_str().is_empty() {
            if whole {
                consumed = consumed + n;
            }
        } else {
            consumed = consumed + n;
            match parse_json(line.as_str()) {
                Some(v) => {
                    events.push(v);
                    assert(trees(events@) =~= before + seq![v@]);
                },
                None => {
                    assert(trees(events@) =~= before + Seq::<JsonTree>::empty());
                },
            }
            assert(trees(events@) =~= before + line_documents(line@));
            if !whole {
                return (events, consumed);
            }
            assert(trees(events@) + log_documents(data@.skip(pos as int)) =~= before + (
            line_documents(line@) + log_documents(data@.skip(pos as int))));
        }
    }
    assert(data@.skip(pos as int) =~= Seq::<u8>::empty());
    assert(trees(events@) =~= log_documents(data@));
    (events, consumed)
}

/// Whether no line of a log is too long to be read whole.
pub open spec fn has_short_lines(data: Seq<u8>) -> bool
    decreases data.len(),
{
    data.len() > 0 ==> !is_overlong(piece(data)) && has_short_lines(
        data.skip(piece_len(data) as int),
    )
}

proof fn lemma_piece_of_extension(a: Seq<u8>, b: Seq<u8>)
    requires
        find_byte(a, LINE_FEED) < a.len(),
    ensures
        find_byte(a + b, LINE_FEED) == find_byte(a, LINE_FEED),
    decreases a.len(),
{
    if a[0] != LINE_FEED {
        assert((a + b).drop_first() =~= a.drop_first() + b);
        lemma_piece_of_extension(a.drop_first(), b);
    } else {
        assert((a + b)[0] == a[0]);
    }
}

/// A log that was read and then grew is read by the bytes that were left, and
/// the new ones, alone: the documents of the grown log are those read before,
/// and then those found from there on.
pub proof fn law_log_resumes(a: Seq<u8>, b: Seq<u8>)
    requires
        has_short_lines(a),
    ensures
        log_documents(a + b) == log_documents(a) + log_documents(
            (a + b).skip(log_bytes(a) as int),
        ),
        log_bytes(a + b) == log_bytes(a) + log_bytes((a + b).skip(log_bytes(a) as int)),
    decreases a.len(),
{
    if !readable(a) {
        assert((a + b).skip(0) =~= a + b);
        assert(Seq::<JsonTree>::empty() + log_documents(a + b) =~= log_documents(a + b));
    } else {
        let n = piece_len(a) as int;
        let rest = a.skip(n);
        lemma_find_byte(a, LINE_FEED);
        lemma_log_bytes(rest);
        assert(ends_line(piece(a)));
        if find_byte(a, LINE_FEED) >= n {
            assert(piece(a).last() == a[n - 1]);
            assert(false);
        }
        lemma_piece_of_extension(a, b);
        assert(piece_len(a + b) == n);
        assert(piece(a + b) =~= piece(a));
        assert((a + b).skip(n) =~= rest + b);
        law_log_resumes(rest, b);
        assert((rest + b).skip(log_bytes(rest) as int) =~= (a + b).skip(log_bytes(a) as int));
        assert(log_documents(a + b) =~= log_documents(a) + log_documents(
            (a + b).skip(log_bytes(a) as int),
        ));
    }
}

/// What is left of a log once it was read tells nothing, until the log grows.
pub proof fn law_rest_of_log_waits(data: Seq<u8>)
    requires
        has_short_lines(data),
    ensures
        log_documents(data.skip(log_bytes(data) as int)) == Seq::<JsonTree>::empty(),
        log_bytes(data.skip(log_bytes(data) as int)) == 0,
{
    let rest = data.skip(log_bytes(data) as int);
    law_log_resumes(data, Seq::empty());
    assert(data + Seq::<u8>::empty() =~= data);
    assert((log_documents(data) + log_documents(rest)).len() == log_documents(data).len()
        + log_documents(rest).len());
    assert(log_documents(rest) =~= Seq::<JsonTree>::empty());
}

} // verus!
