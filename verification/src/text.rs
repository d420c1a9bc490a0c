//! Text as sequences of characters: the small string operations that the
//! collectors need, each proved against a definition over `Seq<char>`.
use vstd::prelude::*;
use vstd::utf8::encode_scalar;
use vstd::utf8::encode_utf8;

verus! {

/// `String::push` appends one character to the end of the string.
pub assume_specification[ String::push ](s: &mut String, c: char)
    ensures
        final(s)@ == old(s)@.push(c),
;

/// The characters of `s`, in order.
pub fn chars_of(s: &str) -> (r: Vec<char>)
    ensures
        r@ == s@,
{
    let mut out: Vec<char> = Vec::new();
    for c in it: s.chars()
        invariant
            it.seq() == s@,
            out@ == s@.take(it.index() as int),
    {
        out.push(c);
    }
    out
}

/// A string made of the given characters.
pub fn string_of(chars: &[char]) -> (r: String)
    ensures
        r@ == chars@,
{
    let mut out = String::new();
    let mut i: usize = 0;
    while i < chars.len()
        invariant
            i <= chars@.len(),
            out@ == chars@.take(i as int),
        decreases chars@.len() - i,
    {
        out.push(chars[i]);
        i += 1;
    }
    out
}

/// Whether two strings hold the same characters.
pub fn text_eq(a: &str, b: &str) -> (r: bool)
    ensures
        r == (a@ == b@),
{
    let x = chars_of(a);
    let y = chars_of(b);
    if x.len() != y.len() {
        return false;
    }
    let mut i: usize = 0;
    while i < x.len()
        invariant
            i <= x@.len(),
            x@.len() == y@.len(),
            x@ == a@,
            y@ == b@,
            forall|k: int| 0 <= k < i ==> x@[k] == y@[k],
        decreases x@.len() - i,
    {
        if x[i] != y[i] {
            return false;
        }
        i += 1;
    }
    assert(a@ =~= b@);
    true
}

/// The characters of each vector.
pub open spec fn seqs(v: Seq<Vec<char>>) -> Seq<Seq<char>> {
    v.map_values(|x: Vec<char>| x@)
}

/// The characters of each string.
pub open spec fn strs(v: Seq<String>) -> Seq<Seq<char>> {
    v.map_values(|x: String| x@)
}

/// Whether `s` is one of the strings.
pub fn contains_string(v: &Vec<String>, s: &str) -> (r: bool)
    ensures
        r == strs(v@).contains(s@),
{
    let mut i: usize = 0;
    while i < v.len()
        invariant
            i <= v@.len(),
            forall|k: int| 0 <= k < i ==> (#[trigger] v@[k])@ != s@,
        decreases v@.len() - i,
    {
        if text_eq(v[i].as_str(), s) {
            assert(strs(v@)[i as int] == s@);
            return true;
        }
        i += 1;
    }
    proof {
        if strs(v@).contains(s@) {
            let k = choose|k: int| 0 <= k < v@.len() && strs(v@)[k] == s@;
            assert(v@[k]@ == s@);
        }
    }
    false
}

/// A copy of the characters from `from` up to `to`.
pub fn slice_of(s: &[char], from: usize, to: usize) -> (r: Vec<char>)
    requires
        from <= to <= s@.len(),
    ensures
        r@ == s@.subrange(from as int, to as int),
{
    let mut out: Vec<char> = Vec::new();
    let mut i: usize = from;
    while i < to
        invariant
            from <= i <= to <= s@.len(),
            out@ == s@.subrange(from as int, i as int),
        decreases to - i,
    {
        out.push(s[i]);
        i += 1;
    }
    out
}

/// The characters with the Unicode `White_Space` property.
pub open spec fn is_white(c: char) -> bool {
    ||| '\u{9}' <= c <= '\u{d}'
    ||| c == ' '
    ||| c == '\u{85}'
    ||| c == '\u{a0}'
    ||| c == '\u{1680}'
    ||| '\u{2000}' <= c <= '\u{200a}'
    ||| c == '\u{2028}'
    ||| c == '\u{2029}'
    ||| c == '\u{202f}'
    ||| c == '\u{205f}'
    ||| c == '\u{3000}'
}

/// Whether `c` has the Unicode `White_Space` property.
pub fn is_whitespace(c: char) -> (r: bool)
    ensures
        r == is_white(c),
{
    ('\u{9}' <= c && c <= '\u{d}') || c == ' ' || c == '\u{85}' || c == '\u{a0}' || c == '\u{1680}'
        || ('\u{2000}' <= c && c <= '\u{200a}') || c == '\u{2028}' || c == '\u{2029}'
        || c == '\u{202f}' || c == '\u{205f}' || c == '\u{3000}'
}

/// `s` without its leading white space.
pub open spec fn trim_start(s: Seq<char>) -> Seq<char>
    decreases s.len(),
{
    if s.len() > 0 && is_white(s[0]) {
        trim_start(s.drop_first())
    } else {
        s
    }
}

/// `s` without its trailing white space.
pub open spec fn trim_end(s: Seq<char>) -> Seq<char>
    decreases s.len(),
{
    if s.len() > 0 && is_white(s.last()) {
        trim_end(s.drop_last())
    } else {
        s
    }
}

/// `s` without white space at either end.
pub open spec fn trim(s: Seq<char>) -> Seq<char> {
    trim_end(trim_start(s))
}

/// The number of leading white space characters.
fn leading_white(s: &[char]) -> (r: usize)
    ensures
        r <= s@.len(),
        trim_start(s@) == s@.skip(r as int),
{
    let mut i: usize = 0;
    assert(s@.skip(0) =~= s@);
    while i < s.len() && is_whitespace(s[i])
        invariant
            i <= s@.len(),
            trim_start(s@) == trim_start(s@.skip(i as int)),
        decreases s@.len() - i,
    {
        assert(s@.skip(i as int).drop_first() =~= s@.skip(i + 1));
        i += 1;
    }
    i
}

/// `s` without its leading white space.
pub fn trim_start_chars(s: &[char]) -> (r: Vec<char>)
    ensures
        r@ == trim_start(s@),
{
    let from = leading_white(s);
    let r = slice_of(s, from, s.len());
    assert(r@ =~= s@.skip(from as int));
    r
}

/// `s` without white space at either end.
pub fn trim_chars(s: &[char]) -> (r: Vec<char>)
    ensures
        r@ == trim(s@),
{
    let from = leading_white(s);
    let ghost head = s@.skip(from as int);
    let mut to: usize = s.len();
    assert(s@.subrange(from as int, to as int) =~= head);
    while to > from && is_whitespace(s[to - 1])
        invariant
            from <= to <= s@.len(),
            trim_end(head) == trim_end(s@.subrange(from as int, to as int)),
        decreases to,
    {
        assert(s@.subrange(from as int, to as int).drop_last() =~= s@.subrange(
            from as int,
            to - 1,
        ));
        to -= 1;
    }
    slice_of(s, from, to)
}

/// `s` without white space at either end.
pub fn trim_str(s: &str) -> (r: String)
    ensures
        r@ == trim(s@),
{
    string_of(trim_chars(chars_of(s).as_slice()).as_slice())
}

/// Whether `s` holds nothing but white space.
pub fn is_blank(s: &str) -> (r: bool)
    ensures
        r == (trim(s@).len() == 0),
{
    trim_chars(chars_of(s).as_slice()).len() == 0
}

/// The index of the first `c` in `s`, or the length where there is none.
pub open spec fn find_char(s: Seq<char>, c: char) -> nat
    decreases s.len(),
{
    if s.len() == 0 || s[0] == c {
        0
    } else {
        1 + find_char(s.drop_first(), c)
    }
}

pub proof fn lemma_find_char(s: Seq<char>, c: char)
    ensures
        find_char(s, c) <= s.len(),
        find_char(s, c) < s.len() ==> s[find_char(s, c) as int] == c,
        forall|i: int| 0 <= i < find_char(s, c) ==> s[i] != c,
    decreases s.len(),
{
    if s.len() > 0 && s[0] != c {
        lemma_find_char(s.drop_first(), c);
        assert forall|i: int| 0 <= i < find_char(s, c) implies s[i] != c by {
            if i > 0 {
                assert(s.drop_first()[i - 1] != c);
            }
        }
    }
}

/// The index of the first `c` at or after `from`, or the length.
fn find_from(s: &[char], c: char, from: usize) -> (r: usize)
    requires
        from <= s@.len(),
    ensures
        from <= r <= s@.len(),
        r == from + find_char(s@.skip(from as int), c),
{
    let ghost tail = s@.skip(from as int);
    let mut i: usize = from;
    assert(s@.skip(from as int) =~= tail.skip(0));
    while i < s.len() && s[i] != c
        invariant
            from <= i <= s@.len(),
            tail == s@.skip(from as int),
            find_char(tail, c) == (i - from) + find_char(s@.skip(i as int), c),
        decreases s@.len() - i,
    {
        assert(s@.skip(i as int).drop_first() =~= s@.skip(i + 1));
        i += 1;
    }
    i
}

/// `s` without one carriage return at its end.
pub open spec fn strip_cr(s: Seq<char>) -> Seq<char> {
    if s.len() > 0 && s.last() == '\r' {
        s.drop_last()
    } else {
        s
    }
}

/// The lines of `s`: what its line feeds end, each without a carriage return
/// before the line feed, and what follows the last line feed.
pub open spec fn lines(s: Seq<char>) -> Seq<Seq<char>>
    decreases s.len(),
{
    let i = find_char(s, '\n');
    if s.len() == 0 {
        Seq::empty()
    } else if i >= s.len() {
        seq![s]
    } else {
        seq![strip_cr(s.take(i as int))] + lines(s.skip(i as int + 1))
    }
}

/// The lines of `s`.
pub fn lines_of(s: &[char]) -> (r: Vec<Vec<char>>)
    ensures
        seqs(r@) == lines(s@),
{
    let mut out: Vec<Vec<char>> = Vec::new();
    let mut pos: usize = 0;
    assert(s@.skip(0) =~= s@);
    assert(seqs(out@) + lines(s@) =~= lines(s@));
    while pos < s.len()
        invariant
            pos <= s@.len(),
            seqs(out@) + lines(s@.skip(pos as int)) == lines(s@),
        decreases s@.len() - pos,
    {
        let ghost tail = s@.skip(pos as int);
        let ghost before = seqs(out@);
        let end = find_from(s, '\n', pos);
        if end == s.len() {
            let last = slice_of(s, pos, end);
            assert(last@ =~= tail);
            out.push(last);
            assert(seqs(out@) =~= before + seq![tail]);
            pos = end;
            assert(lines(s@.skip(pos as int)) =~= Seq::empty());
            assert(seqs(out@) + lines(s@.skip(pos as int)) =~= before + lines(tail));
        } else {
            let cut = if end > pos && s[end - 1] == '\r' {
                end - 1
            } else {
                end
            };
            let line = slice_of(s, pos, cut);
            assert(tail.take(end - pos) =~= s@.subrange(pos as int, end as int));
            assert(line@ =~= strip_cr(tail.take(end - pos)));
            out.push(line);
            assert(seqs(out@) =~= before + seq![line@]);
            assert(tail.skip(end - pos + 1) =~= s@.skip(end + 1));
            assert(seqs(out@) + lines(s@.skip(end + 1)) =~= before + (seq![line@] + lines(
                s@.skip(end + 1),
            )));
            pos = end + 1;
        }
    }
    assert(s@.skip(pos as int) =~= Seq::<char>::empty());
    assert(seqs(out@) =~= lines(s@));
    out
}

/// The parts of `s` between its occurrences of `sep`.
pub open spec fn split_on(s: Seq<char>, sep: char) -> Seq<Seq<char>>
    decreases s.len(),
{
    let i = find_char(s, sep);
    if i >= s.len() {
        seq![s]
    } else {
        seq![s.take(i as int)] + split_on(s.skip(i as int + 1), sep)
    }
}

/// The parts of `s` between its occurrences of `sep`.
pub fn split_chars(s: &[char], sep: char) -> (r: Vec<Vec<char>>)
    ensures
        seqs(r@) == split_on(s@, sep),
        r@.len() >= 1,
{
    let mut out: Vec<Vec<char>> = Vec::new();
    let mut pos: usize = 0;
    assert(s@.skip(0) =~= s@);
    assert(seqs(out@) + split_on(s@, sep) =~= split_on(s@, sep));
    loop
        invariant
            pos <= s@.len(),
            seqs(out@) + split_on(s@.skip(pos as int), sep) == split_on(s@, sep),
        decreases s@.len() - pos,
    {
        let ghost tail = s@.skip(pos as int);
        let ghost before = seqs(out@);
        let end = find_from(s, sep, pos);
        let part = slice_of(s, pos, end);
        assert(part@ =~= tail.take(end - pos));
        out.push(part);
        assert(seqs(out@) =~= before + seq![part@]);
        if end == s.len() {
            assert(part@ =~= tail);
            return out;
        }
        assert(tail.skip(end - pos + 1) =~= s@.skip(end + 1));
        assert(seqs(out@) + split_on(s@.skip(end + 1), sep) =~= before + (seq![part@] + split_on(
            s@.skip(end + 1),
            sep,
        )));
        pos = end + 1;
    }
}

/// The number of leading characters that are not white space.
pub open spec fn word_len(s: Seq<char>) -> nat
    decreases s.len(),
{
    if s.len() == 0 || is_white(s[0]) {
        0
    } else {
        1 + word_len(s.drop_first())
    }
}

pub proof fn lemma_word_len(s: Seq<char>)
    ensures
        word_len(s) <= s.len(),
    decreases s.len(),
{
    if s.len() > 0 && !is_white(s[0]) {
        lemma_word_len(s.drop_first());
    }
}

pub proof fn lemma_trim_start(s: Seq<char>)
    ensures
        trim_start(s).len() <= s.len(),
        trim_start(s).len() > 0 ==> !is_white(trim_start(s)[0]),
    decreases s.len(),
{
    if s.len() > 0 && is_white(s[0]) {
        lemma_trim_start(s.drop_first());
    }
}

/// The words of `s`: its longest runs free of white space.
pub open spec fn words(s: Seq<char>) -> Seq<Seq<char>>
    decreases s.len(),
{
    let t = trim_start(s);
    if t.len() == 0 {
        Seq::empty()
    } else {
        proof {
            lemma_trim_start(s);
            lemma_word_len(t);
        }
        seq![t.take(word_len(t) as int)] + words(t.skip(word_len(t) as int))
    }
}

/// The words of `s`.
pub fn words_of(s: &[char]) -> (r: Vec<Vec<char>>)
    ensures
        seqs(r@) == words(s@),
{
    let mut out: Vec<Vec<char>> = Vec::new();
    let mut rest: Vec<char> = trim_start_chars(s);
    proof {
        lemma_trim_start(s@);
        lemma_trim_start_idempotent(s@);
    }
    assert(seqs(out@) + words(rest@) =~= words(s@));
    while rest.len() > 0
        invariant
            trim_start(rest@) == rest@,
            seqs(out@) + words(rest@) == words(s@),
        decreases rest@.len(),
    {
        let ghost before = seqs(out@);
        let mut n: usize = 0;
        assert(rest@.skip(0) =~= rest@);
        proof {
            lemma_word_len(rest@);
            lemma_trim_start(rest@);
        }
        while n < rest.len() && !is_whitespace(rest[n])
            invariant
                n <= rest@.len(),
                word_len(rest@) == n + word_len(rest@.skip(n as int)),
            decreases rest@.len() - n,
        {
            assert(rest@.skip(n as int).drop_first() =~= rest@.skip(n + 1));
            n += 1;
        }
        let word = slice_of(rest.as_slice(), 0, n);
        assert(word@ =~= rest@.take(n as int));
        out.push(word);
        assert(seqs(out@) =~= before + seq![word@]);
        let tail = slice_of(rest.as_slice(), n, rest.len());
        assert(tail@ =~= rest@.skip(n as int));
        let next = trim_start_chars(tail.as_slice());
        proof {
            lemma_trim_start(tail@);
            lemma_trim_start_idempotent(tail@);
            assert(seqs(out@) + words(next@) =~= before + (seq![word@] + words(tail@)));
        }
        rest = next;
    }
    assert(seqs(out@) =~= words(s@));
    out
}

pub proof fn lemma_trim_start_idempotent(s: Seq<char>)
    ensures
        trim_start(trim_start(s)) == trim_start(s),
        words(trim_start(s)) == words(s),
    decreases s.len(),
{
    if s.len() > 0 && is_white(s[0]) {
        lemma_trim_start_idempotent(s.drop_first());
    }
}

/// Whether `pat` stands in `s` at index `i`.
pub open spec fn occurs_at(s: Seq<char>, pat: Seq<char>, i: int) -> bool {
    0 <= i && i + pat.len() <= s.len() && s.subrange(i, i + pat.len()) == pat
}

/// Whether `pat` stands anywhere in `s`.
pub open spec fn contains(s: Seq<char>, pat: Seq<char>) -> bool {
    exists|i: int| occurs_at(s, pat, i)
}

/// Whether `s` begins with `pat`.
pub open spec fn starts_with(s: Seq<char>, pat: Seq<char>) -> bool {
    occurs_at(s, pat, 0)
}

/// Whether `pat` stands in `s` at index `at`.
fn matches_at(s: &[char], pat: &[char], at: usize) -> (r: bool)
    requires
        at <= s@.len(),
    ensures
        r == occurs_at(s@, pat@, at as int),
{
    let n = s.len();
    if pat.len() > n - at {
        return false;
    }
    let mut i: usize = 0;
    while i < pat.len()
        invariant
            i <= pat@.len(),
            n == s@.len(),
            at + pat@.len() <= n,
            forall|k: int| 0 <= k < i ==> s@[at + k] == pat@[k],
        decreases pat@.len() - i,
    {
        if s[at + i] != pat[i] {
            assert(s@.subrange(at as int, at + pat@.len())[i as int] != pat@[i as int]);
            return false;
        }
        i += 1;
    }
    assert(s@.subrange(at as int, at + pat@.len()) =~= pat@);
    true
}

/// Whether `pat` stands anywhere in `s`.
pub fn contains_chars(s: &[char], pat: &[char]) -> (r: bool)
    ensures
        r == contains(s@, pat@),
{
    let mut at: usize = 0;
    loop
        invariant
            at <= s@.len(),
            forall|i: int| 0 <= i < at ==> !occurs_at(s@, pat@, i),
        decreases s@.len() - at,
    {
        if matches_at(s, pat, at) {
            return true;
        }
        if at == s.len() {
            return false;
        }
        at += 1;
    }
}

/// Whether `pat` stands anywhere in `s`.
pub fn contains_str(s: &str, pat: &str) -> (r: bool)
    ensures
        r == contains(s@, pat@),
{
    contains_chars(chars_of(s).as_slice(), chars_of(pat).as_slice())
}

/// Whether `s` begins with `pat`.
pub fn starts_with_str(s: &str, pat: &str) -> (r: bool)
    ensures
        r == starts_with(s@, pat@),
{
    matches_at(chars_of(s).as_slice(), chars_of(pat).as_slice(), 0)
}

/// What follows `pat` at the beginning of `s`.
pub open spec fn strip_prefix(s: Seq<char>, pat: Seq<char>) -> Option<Seq<char>> {
    if starts_with(s, pat) {
        Some(s.skip(pat.len() as int))
    } else {
        None
    }
}

/// What follows `pat` at the beginning of `s`.
pub fn strip_prefix_str(s: &[char], pat: &str) -> (r: Option<Vec<char>>)
    ensures
        match r {
            Some(t) => strip_prefix(s@, pat@) == Some(t@),
            None => strip_prefix(s@, pat@) is None,
        },
{
    let p = chars_of(pat);
    if matches_at(s, p.as_slice(), 0) {
        let t = slice_of(s, p.len(), s.len());
        assert(t@ =~= s@.skip(pat@.len() as int));
        Some(t)
    } else {
        None
    }
}

/// `s` without the occurrences of `c` at its beginning.
pub open spec fn trim_char_start(s: Seq<char>, c: char) -> Seq<char>
    decreases s.len(),
{
    if s.len() > 0 && s[0] == c {
        trim_char_start(s.drop_first(), c)
    } else {
        s
    }
}

/// `s` without the occurrences of `c` at its end.
pub open spec fn trim_char_end(s: Seq<char>, c: char) -> Seq<char>
    decreases s.len(),
{
    if s.len() > 0 && s.last() == c {
        trim_char_end(s.drop_last(), c)
    } else {
        s
    }
}

/// `s` without the occurrences of `c` at its end.
pub fn trim_end_char(s: &[char], c: char) -> (r: Vec<char>)
    ensures
        r@ == trim_char_end(s@, c),
{
    let mut to: usize = s.len();
    assert(s@.take(to as int) =~= s@);
    while to > 0 && s[to - 1] == c
        invariant
            to <= s@.len(),
            trim_char_end(s@, c) == trim_char_end(s@.take(to as int), c),
        decreases to,
    {
        assert(s@.take(to as int).drop_last() =~= s@.take(to - 1));
        to -= 1;
    }
    let r = slice_of(s, 0, to);
    assert(r@ =~= s@.take(to as int));
    r
}

/// `s` without the occurrences of `c` at either end.
pub fn trim_both_char(s: &[char], c: char) -> (r: Vec<char>)
    ensures
        r@ == trim_char_end(trim_char_start(s@, c), c),
{
    let mut from: usize = 0;
    assert(s@.skip(0) =~= s@);
    while from < s.len() && s[from] == c
        invariant
            from <= s@.len(),
            trim_char_start(s@, c) == trim_char_start(s@.skip(from as int), c),
        decreases s@.len() - from,
    {
        assert(s@.skip(from as int).drop_first() =~= s@.skip(from + 1));
        from += 1;
    }
    let rest = slice_of(s, from, s.len());
    assert(rest@ =~= s@.skip(from as int));
    trim_end_char(rest.as_slice(), c)
}

/// The parts one after another, with `sep` between neighbours.
pub open spec fn join(parts: Seq<Seq<char>>, sep: Seq<char>) -> Seq<char>
    decreases parts.len(),
{
    if parts.len() == 0 {
        Seq::empty()
    } else if parts.len() == 1 {
        parts[0]
    } else {
        join(parts.drop_last(), sep) + sep + parts.last()
    }
}

/// Adds `tail` at the end of `out`.
fn extend_chars(out: &mut Vec<char>, tail: &[char])
    ensures
        final(out)@ == old(out)@ + tail@,
{
    let mut i: usize = 0;
    let ghost start = out@;
    assert(start + tail@.take(0) =~= start);
    while i < tail.len()
        invariant
            i <= tail@.len(),
            out@ == start + tail@.take(i as int),
        decreases tail@.len() - i,
    {
        out.push(tail[i]);
        assert(out@ =~= start + tail@.take(i + 1));
        i += 1;
    }
    assert(tail@.take(i as int) =~= tail@);
}

/// The parts one after another, with one space between neighbours.
pub fn join_spaced(parts: &Vec<Vec<char>>) -> (r: Vec<char>)
    ensures
        r@ == join(seqs(parts@), seq![' ']),
{
    let mut out: Vec<char> = Vec::new();
    let ghost all = seqs(parts@);
    let mut i: usize = 0;
    assert(all.take(0) =~= Seq::empty());
    while i < parts.len()
        invariant
            i <= parts@.len(),
            all == seqs(parts@),
            out@ == join(all.take(i as int), seq![' ']),
        decreases parts@.len() - i,
    {
        let ghost before = out@;
        assert(all.take(i + 1).drop_last() =~= all.take(i as int));
        assert(all.take(i + 1).last() == parts@[i as int]@);
        if i > 0 {
            out.push(' ');
            assert(out@ =~= before + seq![' ']);
        }
        extend_chars(&mut out, parts[i].as_slice());
        assert(out@ =~= join(all.take(i + 1), seq![' ']));
        i += 1;
    }
    assert(all.take(i as int) =~= all);
    out
}

/// `s` where it has at most `max` characters, otherwise its first `max - 1`
/// characters and an ellipsis.
pub open spec fn truncated(s: Seq<char>, max: int) -> Seq<char> {
    if max <= 0 {
        Seq::empty()
    } else if s.len() <= max {
        s
    } else {
        s.take(max - 1).push('\u{2026}')
    }
}

/// Bounds `s` to `max` characters, the last of them an ellipsis where
/// something was left out.
pub fn truncate(s: &str, max: usize) -> (r: String)
    ensures
        r@ == truncated(s@, max as int),
{
    if max == 0 {
        return String::new();
    }
    let chars = chars_of(s);
    if chars.len() <= max {
        s.to_owned()
    } else {
        let mut kept = slice_of(chars.as_slice(), 0, max - 1);
        kept.push('\u{2026}');
        assert(kept@ =~= s@.take(max - 1).push('\u{2026}'));
        string_of(kept.as_slice())
    }
}

/// The last two components of a path that has more than two.
pub open spec fn shortened_path(path: Seq<char>) -> Seq<char> {
    let parts = split_on(path, '/');
    if parts.len() <= 2 {
        path
    } else {
        parts[parts.len() - 2] + seq!['/'] + parts[parts.len() - 1]
    }
}

/// Shortens a path to its last two components.
pub fn shorten_path(path: &str) -> (r: String)
    ensures
        r@ == shortened_path(path@),
{
    let parts = split_chars(chars_of(path).as_slice(), '/');
    let ghost all = split_on(path@, '/');
    let n = parts.len();
    assert(all.len() == n);
    if n <= 2 {
        path.to_owned()
    } else {
        let mut out: Vec<char> = Vec::new();
        assert(all[n - 2] == parts@[n - 2]@);
        assert(all[n - 1] == parts@[n - 1]@);
        extend_chars(&mut out, parts[n - 2].as_slice());
        out.push('/');
        extend_chars(&mut out, parts[n - 1].as_slice());
        assert(out@ =~= all[n - 2] + seq!['/'] + all[n - 1]);
        string_of(out.as_slice())
    }
}

/// What follows the last slash of a path.
pub open spec fn base_name(path: Seq<char>) -> Seq<char> {
    split_on(path, '/').last()
}

/// What follows the last slash of a path.
pub fn base_name_of(path: &[char]) -> (r: Vec<char>)
    ensures
        r@ == base_name(path@),
{
    let parts = split_chars(path, '/');
    let ghost all = split_on(path@, '/');
    let n = parts.len();
    assert(all.len() == n);
    assert(all[n - 1] == parts@[n - 1]@);
    slice_of(parts[n - 1].as_slice(), 0, parts[n - 1].len())
}

/// Whether a trimmed line is shown: it is not empty, opens no code fence and,
/// where headings are dropped, is no heading.
pub open spec fn keeps_line(line: Seq<char>, drop_headings: bool) -> bool {
    &&& line.len() > 0
    &&& !(drop_headings && line[0] == '#')
    &&& !starts_with(line, seq!['`', '`', '`'])
}

/// The trimmed lines that are shown.
pub open spec fn kept_lines(ls: Seq<Seq<char>>, drop_headings: bool) -> Seq<Seq<char>>
    decreases ls.len(),
{
    if ls.len() == 0 {
        Seq::empty()
    } else {
        let rest = kept_lines(ls.drop_last(), drop_headings);
        let line = trim(ls.last());
        if keeps_line(line, drop_headings) {
            rest.push(line)
        } else {
            rest
        }
    }
}

/// The shown lines of `s` on one line.
pub open spec fn flattened(s: Seq<char>, drop_headings: bool) -> Seq<char> {
    join(kept_lines(lines(s), drop_headings), seq![' '])
}

/// Puts the shown lines of `s` on one line.
pub fn flatten_lines(s: &str, drop_headings: bool) -> (r: String)
    ensures
        r@ == flattened(s@, drop_headings),
{
    let ls = lines_of(chars_of(s).as_slice());
    let ghost all = lines(s@);
    let mut kept: Vec<Vec<char>> = Vec::new();
    let mut fence: Vec<char> = Vec::new();
    fence.push('`');
    fence.push('`');
    fence.push('`');
    assert(fence@ =~= seq!['`', '`', '`']);
    let mut i: usize = 0;
    assert(all.take(0) =~= Seq::empty());
    assert(seqs(kept@) =~= kept_lines(all.take(0), drop_headings));
    while i < ls.len()
        invariant
            i <= ls@.len(),
            all == seqs(ls@),
            fence@ == seq!['`', '`', '`'],
            seqs(kept@) == kept_lines(all.take(i as int), drop_headings),
        decreases ls@.len() - i,
    {
        let ghost before = seqs(kept@);
        let line = trim_chars(ls[i].as_slice());
        assert(all.take(i + 1).drop_last() =~= all.take(i as int));
        assert(all.take(i + 1).last() == ls@[i as int]@);
        if line.len() > 0 && !(drop_headings && line[0] == '#') && !matches_at(
            line.as_slice(),
            fence.as_slice(),
            0,
        ) {
            kept.push(line);
            assert(seqs(kept@) =~= before.push(line@));
        }
        i += 1;
    }
    assert(all.take(i as int) =~= all);
    string_of(join_spaced(&kept).as_slice())
}

/// One line of a prompt: its lines trimmed and joined, without blank lines,
/// headings and code fences.
pub fn clean_prompt(s: &str) -> (r: String)
    ensures
        r@ == flattened(s@, true),
{
    flatten_lines(s, true)
}

/// The first line of `s`, or `s` itself where it has none.
pub open spec fn first_line(s: Seq<char>) -> Seq<char> {
    if lines(s).len() > 0 {
        lines(s)[0]
    } else {
        s
    }
}

/// The first line of `s`.
pub fn first_line_of(s: &str) -> (r: String)
    ensures
        r@ == first_line(s@),
{
    let ls = lines_of(chars_of(s).as_slice());
    assert(lines(s@).len() == ls@.len());
    if ls.len() > 0 {
        assert(lines(s@)[0] == ls@[0]@);
        string_of(ls[0].as_slice())
    } else {
        s.to_owned()
    }
}

/// Whether `c` is an ASCII digit.
pub open spec fn is_digit(c: char) -> bool {
    '0' <= c <= '9'
}

/// The value of a row of decimal digits.
pub open spec fn decimal(s: Seq<char>) -> nat
    decreases s.len(),
{
    if s.len() == 0 {
        0
    } else {
        (decimal(s.drop_last()) * 10 + (s.last() as u32 - '0' as u32)) as nat
    }
}

/// The digits of an unsigned number: `s` without one leading plus sign.
pub open spec fn unsigned_digits(s: Seq<char>) -> Seq<char> {
    if s.len() > 0 && s[0] == '+' {
        s.drop_first()
    } else {
        s
    }
}

/// The 64-bit unsigned number that `s` denotes in decimal.
pub open spec fn parsed_u64(s: Seq<char>) -> Option<u64> {
    let d = unsigned_digits(s);
    if d.len() > 0 && (forall|i: int| 0 <= i < d.len() ==> is_digit(#[trigger] d[i])) && decimal(d)
        <= u64::MAX {
        Some(decimal(d) as u64)
    } else {
        None
    }
}

proof fn lemma_decimal_grows(s: Seq<char>, n: int)
    requires
        0 <= n <= s.len(),
        forall|i: int| 0 <= i < s.len() ==> is_digit(#[trigger] s[i]),
    ensures
        decimal(s.take(n)) <= decimal(s),
    decreases s.len() - n,
{
    if n == s.len() {
        assert(s.take(n) =~= s);
    } else {
        assert(s.take(n + 1).drop_last() =~= s.take(n));
        lemma_decimal_grows(s, n + 1);
    }
}

/// Reads a 64-bit unsigned number in decimal.
pub fn parse_u64(s: &[char]) -> (r: Option<u64>)
    ensures
        r == parsed_u64(s@),
{
    let from: usize = if s.len() > 0 && s[0] == '+' {
        1
    } else {
        0
    };
    let ghost d = unsigned_digits(s@);
    assert(d =~= s@.skip(from as int));
    if from == s.len() {
        return None;
    }
    let mut value: u64 = 0;
    let mut i: usize = from;
    assert(d.take(0) =~= Seq::empty());
    while i < s.len()
        invariant
            from <= i <= s@.len(),
            from < s@.len(),
            d == s@.skip(from as int),
            d == unsigned_digits(s@),
            value == decimal(d.take(i - from)),
            forall|k: int| 0 <= k < i - from ==> is_digit(#[trigger] d[k]),
        decreases s@.len() - i,
    {
        let c = s[i];
        assert(d[i - from] == c);
        if !('0' <= c && c <= '9') {
            assert(!is_digit(d[i - from]));
            return None;
        }
        assert(d.take(i - from + 1).drop_last() =~= d.take(i - from));
        let next: u128 = (value as u128) * 10 + ((c as u32) - ('0' as u32)) as u128;
        assert(next == decimal(d.take(i - from + 1)));
        if next > 0xffff_ffff_ffff_ffff {
            proof {
                if forall|k: int| 0 <= k < d.len() ==> is_digit(#[trigger] d[k]) {
                    lemma_decimal_grows(d, i - from + 1);
                }
            }
            return None;
        }
        value = next as u64;
        i += 1;
    }
    assert(d.take(i - from) =~= d);
    Some(value)
}

/// The length of `s` in UTF-8.
pub open spec fn utf8_len(s: Seq<char>) -> nat {
    encode_utf8(s).len()
}

/// The longest prefix of `s` that takes at most `max` bytes of UTF-8.
pub open spec fn clipped(s: Seq<char>, max: int) -> Seq<char>
    decreases s.len(),
{
    if s.len() == 0 || utf8_len(s) <= max {
        s
    } else {
        clipped(s.drop_last(), max)
    }
}

proof fn lemma_utf8_len_push(s: Seq<char>, c: char)
    ensures
        utf8_len(s.push(c)) == utf8_len(s) + encode_scalar(c as u32).len(),
    decreases s.len(),
{
    if s.len() == 0 {
        reveal_with_fuel(encode_utf8, 2);
        assert(s.push(c).drop_first() =~= Seq::empty());
    } else {
        assert(s.push(c).drop_first() =~= s.drop_first().push(c));
        lemma_utf8_len_push(s.drop_first(), c);
    }
}

proof fn lemma_clipped(s: Seq<char>, max: int, n: int)
    requires
        0 <= n <= s.len(),
        n == 0 || utf8_len(s.take(n)) <= max,
        n < s.len() ==> utf8_len(s.take(n + 1)) > max,
    ensures
        clipped(s, max) == s.take(n),
    decreases s.len(),
{
    if n == s.len() {
        assert(s.take(n) =~= s);
    } else {
        lemma_utf8_len_grows(s, n + 1);
        assert(s.drop_last().take(n) =~= s.take(n));
        if n < s.len() - 1 {
            assert(s.drop_last().take(n + 1) =~= s.take(n + 1));
        }
        lemma_clipped(s.drop_last(), max, n);
    }
}

proof fn lemma_utf8_len_grows(s: Seq<char>, n: int)
    requires
        0 <= n <= s.len(),
    ensures
        utf8_len(s.take(n)) <= utf8_len(s),
    decreases s.len() - n,
{
    if n == s.len() {
        assert(s.take(n) =~= s);
    } else {
        assert(s.take(n + 1) =~= s.take(n).push(s[n]));
        lemma_utf8_len_push(s.take(n), s[n]);
        lemma_utf8_len_grows(s, n + 1);
    }
}

/// The number of bytes that `c` takes in UTF-8.
fn utf8_width(c: char) -> (r: usize)
    ensures
        r == encode_scalar(c as u32).len(),
        1 <= r <= 4,
{
    let v = c as u32;
    if v <= 0x7f {
        1
    } else if v <= 0x7ff {
        2
    } else if v <= 0xffff {
        3
    } else {
        4
    }
}

/// Cuts `s` to its longest prefix of at most `max_bytes` bytes of UTF-8.
pub fn truncate_field(s: &mut String, max_bytes: usize)
    ensures
        final(s)@ == clipped(old(s)@, max_bytes as int),
{
    let chars = chars_of(s.as_str());
    let ghost all = s@;
    let mut n: usize = 0;
    let mut used: usize = 0;
    assert(all.take(0) =~= Seq::empty());
    while n < chars.len()
        invariant
            n <= chars@.len(),
            chars@ == all,
            all == s@,
            all == old(s)@,
            used <= max_bytes,
            used == utf8_len(all.take(n as int)),
        decreases chars@.len() - n,
    {
        let width = utf8_width(chars[n]);
        assert(all.take(n + 1) =~= all.take(n as int).push(all[n as int]));
        proof {
            lemma_utf8_len_push(all.take(n as int), all[n as int]);
        }
        if width > max_bytes - used {
            proof {
                lemma_clipped(all, max_bytes as int, n as int);
            }
            let kept = slice_of(chars.as_slice(), 0, n);
            assert(kept@ =~= all.take(n as int));
            *s = string_of(kept.as_slice());
            return ;
        }
        used += width;
        n += 1;
    }
    assert(all.take(n as int) =~= all);
}

/// What stands before and after the first `c` of `s`.
pub open spec fn split_once(s: Seq<char>, c: char) -> Option<(Seq<char>, Seq<char>)> {
    let i = find_char(s, c);
    if i < s.len() {
        Some((s.take(i as int), s.skip(i as int + 1)))
    } else {
        None
    }
}

/// What stands before and after the first `c` of `s`.
pub fn split_once_char(s: &[char], c: char) -> (r: Option<(Vec<char>, Vec<char>)>)
    ensures
        match r {
            Some((a, b)) => split_once(s@, c) == Some((a@, b@)),
            None => split_once(s@, c) is None,
        },
{
    assert(s@.skip(0) =~= s@);
    let i = find_from(s, c, 0);
    if i < s.len() {
        let a = slice_of(s, 0, i);
        let b = slice_of(s, i + 1, s.len());
        assert(a@ =~= s@.take(i as int));
        assert(b@ =~= s@.skip(i + 1));
        Some((a, b))
    } else {
        None
    }
}

} // verus!
