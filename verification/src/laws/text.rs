//! What the operations on text give.
use crate::text::base_name;
use crate::text::clipped;
use crate::text::contains;
use crate::text::decimal;
use crate::text::find_char;
use crate::text::first_line;
use crate::text::flattened;
use crate::text::is_digit;
use crate::text::is_white;
use crate::text::join;
use crate::text::keeps_line;
use crate::text::kept_lines;
use crate::text::lemma_find_char;
use crate::text::lines;
use crate::text::occurs_at;
use crate::text::parsed_u64;
use crate::text::shortened_path;
use crate::text::split_on;
use crate::text::split_once;
use crate::text::starts_with;
use crate::text::strip_prefix;
use crate::text::trim;
use crate::text::trim_char_end;
use crate::text::trim_char_start;
use crate::text::trim_end;
use crate::text::trim_start;
use crate::text::truncated;
use crate::text::utf8_len;
use crate::text::word_len;
use crate::text::words;
use vstd::prelude::*;

verus! {

/// Whether `part` stands somewhere in `text`.
pub open spec fn has_part(text: Seq<char>, part: Seq<char>) -> bool {
    exists|a: Seq<char>, b: Seq<char>| text == #[trigger] (a + part + b)
}

/// A text contains another where it is something, the other, and something.
pub proof fn law_containing_is_having_a_part(s: Seq<char>, pat: Seq<char>)
    ensures
        contains(s, pat) <==> has_part(s, pat),
{
    if contains(s, pat) {
        let i = choose|i: int| occurs_at(s, pat, i);
        assert(s =~= s.take(i) + pat + s.skip(i + pat.len()));
    }
    if has_part(s, pat) {
        let (a, b) = choose|a: Seq<char>, b: Seq<char>| s == #[trigger] (a + pat + b);
        let n = a.len() as int;
        assert(s.subrange(n, n + pat.len()) =~= pat);
        assert(occurs_at(s, pat, n));
    }
}

/// A text begins with another where it is the other and something.
pub proof fn law_beginning_is_followed(s: Seq<char>, pat: Seq<char>)
    ensures
        starts_with(s, pat) <==> strip_prefix(s, pat) is Some,
        strip_prefix(s, pat) is Some ==> s == pat + strip_prefix(s, pat)->0,
        forall|rest: Seq<char>| s == #[trigger] (pat + rest) ==> strip_prefix(s, pat) == Some(rest),
{
    if starts_with(s, pat) {
        assert(s =~= pat + s.skip(pat.len() as int));
    }
    assert forall|rest: Seq<char>| s == #[trigger] (pat + rest) implies strip_prefix(s, pat)
        == Some(rest) by {
        assert(s.subrange(0, pat.len() as int) =~= pat);
        assert(s.skip(pat.len() as int) =~= rest);
    }
}

/// Whether every character is white space.
pub open spec fn all_white(s: Seq<char>) -> bool {
    forall|i: int| 0 <= i < s.len() ==> is_white(#[trigger] s[i])
}

proof fn lemma_trim_start(s: Seq<char>)
    ensures
        exists|a: Seq<char>| #![trigger all_white(a)] all_white(a) && s == a + trim_start(s),
        trim_start(s).len() > 0 ==> !is_white(trim_start(s)[0]),
    decreases s.len(),
{
    if s.len() > 0 && is_white(s[0]) {
        lemma_trim_start(s.drop_first());
        let a = choose|a: Seq<char>|
            #![trigger all_white(a)]
            all_white(a) && s.drop_first() == a + trim_start(s.drop_first());
        let b = seq![s[0]] + a;
        assert forall|i: int| 0 <= i < b.len() implies is_white(#[trigger] b[i]) by {
            if i > 0 {
                assert(b[i] == a[i - 1]);
            }
        }
        assert(all_white(b));
        assert(s =~= seq![s[0]] + s.drop_first());
        assert(s =~= b + trim_start(s));
    } else {
        let a = Seq::<char>::empty();
        assert(all_white(a));
        assert(s =~= a + trim_start(s));
    }
}

proof fn lemma_trim_end(s: Seq<char>)
    ensures
        exists|b: Seq<char>| #![trigger all_white(b)] all_white(b) && s == trim_end(s) + b,
        trim_end(s).len() > 0 ==> !is_white(trim_end(s).last()) && trim_end(s)[0] == s[0],
    decreases s.len(),
{
    if s.len() > 0 && is_white(s.last()) {
        lemma_trim_end(s.drop_last());
        let b = choose|b: Seq<char>|
            #![trigger all_white(b)]
            all_white(b) && s.drop_last() == trim_end(s.drop_last()) + b;
        let c = b.push(s.last());
        assert(all_white(c));
        assert(s =~= s.drop_last().push(s.last()));
        assert(s =~= trim_end(s) + c);
    } else {
        let b = Seq::<char>::empty();
        assert(all_white(b));
        assert(s =~= trim_end(s) + b);
    }
}

/// Trimming takes white space off both ends, and leaves none there.
pub proof fn law_trimming_takes_white_space_off(s: Seq<char>)
    ensures
        exists|a: Seq<char>, b: Seq<char>|
            #![trigger all_white(a), all_white(b)]
            all_white(a) && all_white(b) && s == a + trim(s) + b,
        trim(s).len() > 0 ==> !is_white(trim(s)[0]) && !is_white(trim(s).last()),
{
    lemma_trim_start(s);
    lemma_trim_end(trim_start(s));
    let a = choose|a: Seq<char>| #![trigger all_white(a)] all_white(a) && s == a + trim_start(s);
    let b = choose|b: Seq<char>|
        #![trigger all_white(b)]
        all_white(b) && trim_start(s) == trim(s) + b;
    assert(s =~= a + trim(s) + b);
}

/// White space is what separates words: the blank, the tabs, the ends of lines
/// and the other spaces of Unicode, and nothing that is printed.
pub proof fn law_white_space(c: char)
    ensures
        is_white(c) <==> (c == ' ' || c == '\t' || c == '\n' || c == '\u{b}' || c == '\u{c}' || c
            == '\r' || c == '\u{85}' || c == '\u{a0}' || c == '\u{1680}' || (c as u32 >= 0x2000
            && c as u32 <= 0x200a) || c == '\u{2028}' || c == '\u{2029}' || c == '\u{202f}' || c
            == '\u{205f}' || c == '\u{3000}'),
{
}

/// Whether `c` does not occur in `s`.
pub open spec fn is_free_of(s: Seq<char>, c: char) -> bool {
    forall|i: int| 0 <= i < s.len() ==> #[trigger] s[i] != c
}

proof fn lemma_first_found(a: Seq<char>, c: char, b: Seq<char>)
    requires
        is_free_of(a, c),
    ensures
        find_char(a + seq![c] + b, c) == a.len(),
        (a + seq![c] + b).take(a.len() as int) == a,
        (a + seq![c] + b).skip(a.len() as int + 1) == b,
        find_char(a, c) == a.len(),
{
    let s = a + seq![c] + b;
    lemma_find_char(s, c);
    lemma_find_char(a, c);
    assert(s[a.len() as int] == c);
    let i = find_char(s, c) as int;
    if i < a.len() {
        assert(s[i] == a[i]);
    }
    if find_char(a, c) < a.len() {
        assert(a[find_char(a, c) as int] == c);
    }
    assert(s.take(a.len() as int) =~= a);
    assert(s.skip(a.len() as int + 1) =~= b);
}

/// A text is split at every separator: what stands before the first one is a
/// part, and the rest is split so.
pub proof fn law_text_is_split_at_separators(a: Seq<char>, c: char, b: Seq<char>)
    requires
        is_free_of(a, c),
    ensures
        split_on(a, c) == seq![a],
        split_on(a + seq![c] + b, c) == seq![a] + split_on(b, c),
        split_once(a, c) is None,
        split_once(a + seq![c] + b, c) == Some((a, b)),
{
    lemma_first_found(a, c, b);
}

/// A text is read line by line: a line ends before a line feed, without a
/// carriage return right before it, and the last line needs no end.
pub proof fn law_text_is_read_by_lines(a: Seq<char>, b: Seq<char>)
    requires
        is_free_of(a, '\n'),
    ensures
        lines(Seq::empty()).len() == 0,
        a.len() > 0 ==> lines(a) == seq![a],
        (a.len() == 0 || a.last() != '\r') ==> lines(a + seq!['\n'] + b) == seq![a] + lines(b),
        lines(a.push('\r') + seq!['\n'] + b) == seq![a] + lines(b),
{
    lemma_first_found(a, '\n', b);
    let r = a.push('\r');
    lemma_first_found(r, '\n', b);
    assert(r.drop_last() =~= a);
    if a.len() > 0 && a.last() == '\r' {
    }
}

/// The first line of a text is what stands before its first line feed.
pub proof fn law_first_line_ends_at_the_first_line_feed(a: Seq<char>, b: Seq<char>)
    requires
        is_free_of(a, '\n'),
    ensures
        first_line(a) == a,
        (a.len() == 0 || a.last() != '\r') ==> first_line(a + seq!['\n'] + b) == a,
        first_line(a.push('\r') + seq!['\n'] + b) == a,
{
    law_text_is_read_by_lines(a, b);
    if a.len() == 0 {
        assert(a =~= Seq::empty());
    }
}

/// Whether `s` has no white space.
pub open spec fn is_solid(s: Seq<char>) -> bool {
    forall|i: int| 0 <= i < s.len() ==> !is_white(#[trigger] s[i])
}

proof fn lemma_word_len(a: Seq<char>, w: char, b: Seq<char>)
    requires
        is_solid(a),
        is_white(w),
    ensures
        word_len(a) == a.len(),
        word_len(a + seq![w] + b) == a.len(),
    decreases a.len(),
{
    let s = a + seq![w] + b;
    if a.len() == 0 {
        assert(s[0] == w);
    } else {
        let rest = a.drop_first();
        assert(s[0] == a[0]);
        assert forall|i: int| 0 <= i < rest.len() implies !is_white(#[trigger] rest[i]) by {
            assert(rest[i] == a[i + 1]);
        }
        assert(s.drop_first() =~= rest + seq![w] + b);
        lemma_word_len(rest, w, b);
    }
}

/// The words of a text are what stands between white space: a run without any
/// is a word, and the rest is read so.
pub proof fn law_words_stand_between_white_space(a: Seq<char>, w: char, b: Seq<char>)
    requires
        is_solid(a),
        is_white(w),
    ensures
        words(Seq::empty()).len() == 0,
        words(seq![w] + b) == words(b),
        a.len() > 0 ==> words(a) == seq![a],
        a.len() > 0 ==> words(a + seq![w] + b) == seq![a] + words(b),
{
    assert((seq![w] + b).drop_first() =~= b);
    assert(trim_start(seq![w] + b) == trim_start(b));
    assert(words(seq![w] + b) == words(b)) by {
        reveal_with_fuel(words, 2);
    }
    if a.len() > 0 {
        let s = a + seq![w] + b;
        lemma_word_len(a, w, b);
        assert(s[0] == a[0]);
        assert(trim_start(s) == s);
        assert(s.take(a.len() as int) =~= a);
        assert(s.skip(a.len() as int) =~= seq![w] + b);
        assert(trim_start(a) == a);
        assert(a.take(a.len() as int) =~= a);
        assert(a.skip(a.len() as int) =~= Seq::empty());
        reveal_with_fuel(words, 2);
        assert(words(a) =~= seq![a]);
    }
}

/// Parts are joined with the separator between neighbours: one part is itself,
/// and one more comes behind a separator.
pub proof fn law_parts_are_joined(parts: Seq<Seq<char>>, sep: Seq<char>, last: Seq<char>)
    ensures
        join(Seq::empty(), sep).len() == 0,
        join(seq![last], sep) == last,
        parts.len() > 0 ==> join(parts.push(last), sep) == join(parts, sep) + sep + last,
{
    assert(parts.push(last).drop_last() =~= parts);
}

/// A text that is short enough is shown as it is; of a longer one as many
/// characters are shown as there is room for, the last of them an ellipsis.
pub proof fn law_long_text_is_cut(s: Seq<char>, max: int)
    requires
        max > 0,
    ensures
        truncated(s, max).len() <= max,
        s.len() <= max ==> truncated(s, max) == s,
        s.len() > max ==> truncated(s, max).len() == max && truncated(s, max).last() == '…'
            && forall|i: int| 0 <= i < max - 1 ==> #[trigger] truncated(s, max)[i] == s[i],
{
}

/// A text is clipped to the longest beginning that takes no more bytes.
pub proof fn law_clipping_keeps_the_longest_beginning(s: Seq<char>, max: int)
    requires
        max >= 0,
    ensures
        exists|n: int|
            #![trigger s.take(n)]
            0 <= n <= s.len() && clipped(s, max) == s.take(n) && utf8_len(s.take(n)) <= max && (n
                < s.len() ==> utf8_len(s.take(n + 1)) > max),
    decreases s.len(),
{
    if s.len() == 0 || utf8_len(s) <= max {
        assert(s.take(s.len() as int) =~= s);
        if s.len() == 0 {
            assert(s =~= Seq::empty());
            assert(utf8_len(s) == 0);
        }
    } else {
        let most = s.drop_last();
        law_clipping_keeps_the_longest_beginning(most, max);
        let n = choose|n: int|
            #![trigger most.take(n)]
            0 <= n <= most.len() && clipped(most, max) == most.take(n) && utf8_len(most.take(n))
                <= max && (n < most.len() ==> utf8_len(most.take(n + 1)) > max);
        assert(s.take(n) =~= most.take(n));
        if n < most.len() {
            assert(s.take(n + 1) =~= most.take(n + 1));
        } else {
            assert(s.take(n + 1) =~= s);
        }
    }
}

/// The name of a file is what follows the last slash of its path.
pub proof fn law_name_follows_the_last_slash(dir: Seq<char>, name: Seq<char>)
    requires
        is_free_of(name, '/'),
    ensures
        base_name(name) == name,
        base_name(dir + seq!['/'] + name) == name,
    decreases dir.len(),
{
    law_text_is_split_at_separators(name, '/', Seq::empty());
    lemma_last_part(dir, '/', name);
}

pub proof fn lemma_last_part(dir: Seq<char>, c: char, name: Seq<char>)
    requires
        is_free_of(name, c),
    ensures
        split_on(dir + seq![c] + name, c) == split_on(dir, c).push(name),
    decreases dir.len(),
{
    let s = dir + seq![c] + name;
    lemma_find_char(dir, c);
    let i = find_char(dir, c) as int;
    if i >= dir.len() {
        assert(is_free_of(dir, c));
        law_text_is_split_at_separators(dir, c, name);
        law_text_is_split_at_separators(name, c, Seq::empty());
        assert(seq![dir] + seq![name] =~= seq![dir].push(name));
    } else {
        let a = dir.take(i);
        let b = dir.skip(i + 1);
        assert(is_free_of(a, c));
        assert(dir =~= a + seq![c] + b);
        assert(s =~= a + seq![c] + (b + seq![c] + name));
        law_text_is_split_at_separators(a, c, b + seq![c] + name);
        law_text_is_split_at_separators(a, c, b);
        lemma_last_part(b, c, name);
        assert(seq![a] + split_on(b, c).push(name) =~= (seq![a] + split_on(b, c)).push(name));
    }
}

/// A path of more than two parts is shortened to its last two; a shorter one
/// stays.
pub proof fn law_path_is_shortened_to_two_parts(
    rest: Seq<char>,
    dir: Seq<char>,
    name: Seq<char>,
)
    requires
        is_free_of(dir, '/'),
        is_free_of(name, '/'),
    ensures
        shortened_path(name) == name,
        shortened_path(dir + seq!['/'] + name) == dir + seq!['/'] + name,
        shortened_path(rest + seq!['/'] + dir + seq!['/'] + name) == dir + seq!['/'] + name,
{
    let path = rest + seq!['/'] + dir;
    law_text_is_split_at_separators(name, '/', Seq::empty());
    law_text_is_split_at_separators(dir, '/', name);
    lemma_last_part(rest, '/', dir);
    lemma_last_part(path, '/', name);
    assert(split_on(rest, '/').len() >= 1);
}

/// A number is written in decimal: one more digit makes it ten times as large,
/// and adds the digit.
pub proof fn law_numbers_are_decimal(s: Seq<char>, c: char)
    ensures
        is_digit(c) <==> c == '0' || c == '1' || c == '2' || c == '3' || c == '4' || c == '5' || c
            == '6' || c == '7' || c == '8' || c == '9',
        is_digit(c) ==> parsed_u64(seq![c]) == Some((c as u32 - '0' as u32) as u64),
        !is_digit(c) ==> parsed_u64(s.push(c)) is None,
        is_digit(c) && parsed_u64(s) is Some && parsed_u64(s)->0 * 10 + (c as u32 - '0' as u32)
            <= u64::MAX ==> parsed_u64(s.push(c)) == Some(
            (parsed_u64(s)->0 * 10 + (c as u32 - '0' as u32)) as u64,
        ),
        is_digit(c) && parsed_u64(s) is Some && parsed_u64(s)->0 * 10 + (c as u32 - '0' as u32)
            > u64::MAX ==> parsed_u64(s.push(c)) is None,
        parsed_u64(Seq::empty()) is None,
{
    reveal_with_fuel(decimal, 2);
    let one = seq![c];
    assert(one.drop_last() =~= Seq::empty());
    if is_digit(c) {
        assert(crate::text::unsigned_digits(one) =~= one);
        assert forall|i: int| 0 <= i < one.len() implies is_digit(#[trigger] one[i]) by {}
    }
    let t = s.push(c);
    let d = crate::text::unsigned_digits(s);
    let e = crate::text::unsigned_digits(t);
    if s.len() > 0 {
        assert(e =~= d.push(c));
        assert(e.drop_last() =~= d);
        assert(e[d.len() as int] == c);
    } else {
        assert(t =~= one);
        if c == '+' {
            assert(e =~= Seq::empty());
        } else {
            assert(e =~= one);
            assert(e[0] == c);
        }
    }
    if parsed_u64(s) is Some {
        assert forall|i: int| 0 <= i < d.push(c).len() && is_digit(c) implies is_digit(
            #[trigger] d.push(c)[i],
        ) by {
            if i < d.len() {
                assert(is_digit(d[i]));
            }
        }
    }
}

/// What stands at the end of a text is taken off as often as it is there.
pub proof fn law_trimming_one_character(s: Seq<char>, c: char)
    ensures
        trim_char_end(s.push(c), c) == trim_char_end(s, c),
        s.len() == 0 || s.last() != c ==> trim_char_end(s, c) == s,
        trim_char_start(seq![c] + s, c) == trim_char_start(s, c),
        s.len() == 0 || s[0] != c ==> trim_char_start(s, c) == s,
{
    assert(s.push(c).drop_last() =~= s);
    assert((seq![c] + s).drop_first() =~= s);
}

/// Two texts behind each other, with a blank between them where neither is
/// empty.
pub open spec fn glued(a: Seq<char>, b: Seq<char>) -> Seq<char> {
    if a.len() == 0 {
        b
    } else if b.len() == 0 {
        a
    } else {
        a + seq![' '] + b
    }
}

/// What is shown of a line: nothing where it opens a code fence or, where
/// headings are dropped, is a heading; else the line, trimmed.
pub open spec fn shown_line(line: Seq<char>, drop_headings: bool) -> Seq<char> {
    let t = trim(line);
    if (drop_headings && t.len() > 0 && t[0] == '#') || (t.len() >= 3 && t[0] == '`' && t[1] == '`'
        && t[2] == '`') {
        Seq::empty()
    } else {
        t
    }
}

proof fn lemma_keeps(line: Seq<char>, drop_headings: bool)
    ensures
        keeps_line(trim(line), drop_headings) <==> shown_line(line, drop_headings).len() > 0,
        keeps_line(trim(line), drop_headings) ==> shown_line(line, drop_headings) == trim(line),
{
    let t = trim(line);
    let fence = seq!['`', '`', '`'];
    if t.len() >= 3 {
        if t[0] == '`' && t[1] == '`' && t[2] == '`' {
            assert(t.subrange(0, 3) =~= fence);
        } else if t.subrange(0, 3) == fence {
            assert(fence[0] == t[0] && fence[1] == t[1] && fence[2] == t[2]);
        }
    }
}

proof fn lemma_kept_first(ls: Seq<Seq<char>>, first: Seq<char>, h: bool)
    ensures
        kept_lines(seq![first] + ls, h) == kept_lines(seq![first], h) + kept_lines(ls, h),
        kept_lines(seq![first], h) == if keeps_line(trim(first), h) {
            seq![trim(first)]
        } else {
            Seq::empty()
        },
    decreases ls.len(),
{
    let one = seq![first];
    assert(one.drop_last() =~= Seq::empty());
    reveal_with_fuel(kept_lines, 2);
    assert(kept_lines(one, h) =~= if keeps_line(trim(first), h) {
        seq![trim(first)]
    } else {
        Seq::empty()
    });
    let all = one + ls;
    if ls.len() == 0 {
        assert(all =~= one);
        assert(kept_lines(one, h) + kept_lines(ls, h) =~= kept_lines(one, h));
    } else {
        lemma_kept_first(ls.drop_last(), first, h);
        assert(all.drop_last() =~= one + ls.drop_last());
        assert(all.last() == ls.last());
        assert(kept_lines(all, h) =~= kept_lines(one, h) + kept_lines(ls, h));
    }
}

proof fn lemma_join_first(parts: Seq<Seq<char>>, first: Seq<char>)
    requires
        first.len() > 0,
        forall|i: int| 0 <= i < parts.len() ==> (#[trigger] parts[i]).len() > 0,
    ensures
        join(seq![first] + parts, seq![' ']) == glued(first, join(parts, seq![' '])),
        parts.len() > 0 ==> join(parts, seq![' ']).len() > 0,
    decreases parts.len(),
{
    let sep = seq![' '];
    let all = seq![first] + parts;
    if parts.len() == 0 {
        assert(all =~= seq![first]);
    } else {
        let most = parts.drop_last();
        let last = parts.last();
        assert(last.len() > 0) by {
            assert(parts[parts.len() - 1].len() > 0);
        }
        assert forall|i: int| 0 <= i < most.len() implies (#[trigger] most[i]).len() > 0 by {
            assert(parts[i].len() > 0);
        }
        lemma_join_first(most, first);
        assert(all.drop_last() =~= seq![first] + most);
        assert(all.last() == last);
        if most.len() == 0 {
            assert(parts =~= seq![last]);
            assert(join(all, sep) =~= first + sep + last);
        } else {
            assert(join(all, sep) =~= first + sep + (join(most, sep) + sep + last));
        }
    }
}

proof fn lemma_kept_are_filled(ls: Seq<Seq<char>>, h: bool)
    ensures
        forall|i: int|
            0 <= i < kept_lines(ls, h).len() ==> (#[trigger] kept_lines(ls, h)[i]).len() > 0,
    decreases ls.len(),
{
    if ls.len() > 0 {
        lemma_kept_are_filled(ls.drop_last(), h);
        let rest = kept_lines(ls.drop_last(), h);
        let all = kept_lines(ls, h);
        assert forall|i: int| 0 <= i < all.len() implies (#[trigger] all[i]).len() > 0 by {
            if i < rest.len() {
                assert(all[i] == rest[i]);
            }
        }
    }
}

/// A text of several lines is shown on one: each line trimmed, with a blank
/// between neighbours, without those that are blank, open a code fence or,
/// where headings are dropped, are headings.
pub proof fn law_lines_are_shown_on_one(a: Seq<char>, b: Seq<char>, drop_headings: bool)
    requires
        is_free_of(a, '\n'),
        a.len() == 0 || a.last() != '\r',
    ensures
        flattened(Seq::empty(), drop_headings).len() == 0,
        a.len() > 0 ==> flattened(a, drop_headings) == shown_line(a, drop_headings),
        flattened(a + seq!['\n'] + b, drop_headings) == glued(
            shown_line(a, drop_headings),
            flattened(b, drop_headings),
        ),
{
    let h = drop_headings;
    law_text_is_read_by_lines(a, b);
    lemma_keeps(a, h);
    lemma_kept_first(lines(b), a, h);
    lemma_kept_are_filled(lines(b), h);
    let rest = kept_lines(lines(b), h);
    assert(kept_lines(lines(Seq::empty()), h) =~= Seq::empty());
    if keeps_line(trim(a), h) {
        lemma_join_first(rest, trim(a));
        assert(kept_lines(seq![a], h) =~= seq![trim(a)]);
    } else {
        assert(kept_lines(seq![a], h) + rest =~= rest);
        assert(shown_line(a, h) =~= Seq::empty());
        assert(kept_lines(seq![a], h) =~= Seq::empty());
    }
}

} // verus!
