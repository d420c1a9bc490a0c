//! What the configuration of kimi-code says of its model.
use crate::kimi::config::configured_model;
use crate::kimi::config::default_model;
use crate::kimi::config::display_name;
use crate::kimi::config::model_header;
use crate::kimi::config::unquoted;
use crate::kimi::config::value_in;
use crate::laws::text::all_white;
use crate::laws::text::law_beginning_is_followed;
use crate::laws::text::law_trimming_one_character;
use crate::text::is_white;
use crate::text::lines;
use crate::text::strip_prefix;
use crate::text::trim;
use crate::text::trim_char_end;
use crate::text::trim_char_start;
use crate::text::trim_end;
use crate::text::trim_start;
use vstd::prelude::*;

verus! {

/// Whether a text neither begins nor ends with white space or a quote.
pub open spec fn is_bare(x: Seq<char>) -> bool {
    x.len() > 0 && !is_white(x[0]) && !is_white(x.last()) && x[0] != '"' && x.last() != '"'
}

proof fn lemma_trim_bare(x: Seq<char>)
    requires
        x.len() > 0,
        !is_white(x[0]),
        !is_white(x.last()),
    ensures
        trim(x) == x,
        trim_start(x) == x,
        trim_end(x) == x,
{
}

proof fn lemma_trim_start_white(a: Seq<char>, x: Seq<char>)
    requires
        all_white(a),
        x.len() > 0,
        !is_white(x[0]),
    ensures
        trim_start(a + x) == x,
    decreases a.len(),
{
    if a.len() == 0 {
        assert(a + x =~= x);
    } else {
        assert((a + x).drop_first() =~= a.drop_first() + x);
        assert(is_white(a[0]));
        assert forall|i: int| 0 <= i < a.drop_first().len() implies is_white(
            #[trigger] a.drop_first()[i],
        ) by {
            assert(is_white(a[i + 1]));
        }
        lemma_trim_start_white(a.drop_first(), x);
    }
}

proof fn lemma_trim_end_white(x: Seq<char>, b: Seq<char>)
    requires
        all_white(b),
        x.len() > 0,
        !is_white(x.last()),
    ensures
        trim_end(x + b) == x,
    decreases b.len(),
{
    if b.len() == 0 {
        assert(x + b =~= x);
    } else {
        assert((x + b).drop_last() =~= x + b.drop_last());
        assert(is_white(b[b.len() - 1]));
        assert forall|i: int| 0 <= i < b.drop_last().len() implies is_white(
            #[trigger] b.drop_last()[i],
        ) by {
            assert(is_white(b[i]));
        }
        lemma_trim_end_white(x, b.drop_last());
    }
}

/// A value stands between quotes or without them, with white space around it or
/// not.
pub proof fn law_value_is_unquoted(a: Seq<char>, x: Seq<char>, b: Seq<char>)
    requires
        all_white(a),
        all_white(b),
        is_bare(x),
    ensures
        unquoted(a + x + b) == x,
        unquoted(a + (seq!['"'] + x).push('"') + b) == x,
{
    let q = (seq!['"'] + x).push('"');
    assert(is_white('"') == false);
    assert(a + x + b =~= a + (x + b));
    assert(a + q + b =~= a + (q + b));
    lemma_trim_start_white(a, x + b);
    lemma_trim_start_white(a, q + b);
    lemma_trim_end_white(x, b);
    lemma_trim_end_white(q, b);
    lemma_trim_bare(x);
    law_trimming_one_character(x, '"');
    law_trimming_one_character(seq!['"'] + x, '"');
    law_trimming_one_character(x.push('"'), '"');
    assert(q =~= seq!['"'] + x.push('"'));
    assert(x.push('"')[0] == x[0]);
    assert(trim_char_start(q, '"') == x.push('"'));
    assert(trim_char_end(x.push('"'), '"') == x);
}

/// A line gives a key its value behind an equals sign, with or without white
/// space around the parts. A line that begins otherwise gives it none.
pub proof fn law_line_gives_a_value(
    line: Seq<char>,
    key: Seq<char>,
    gap: Seq<char>,
    value: Seq<char>,
)
    requires
        all_white(gap),
    ensures
        trim(line) == key + (gap + (seq!['='] + value)) && unquoted(value).len() > 0 ==> value_in(
            line,
            key,
        ) == Some(unquoted(value)),
        trim(line) == key + (gap + (seq!['='] + value)) && unquoted(value).len() == 0 ==> value_in(
            line,
            key,
        ) is None,
        strip_prefix(trim(line), key) is None ==> value_in(line, key) is None,
{
    reveal_strlit("=");
    assert("="@ =~= seq!['=']);
    let tail = seq!['='] + value;
    if trim(line) == key + (gap + tail) {
        law_beginning_is_followed(trim(line), key);
        assert(strip_prefix(trim(line), key) == Some(gap + tail));
        assert(tail[0] == '=');
        lemma_trim_start_white(gap, tail);
        law_beginning_is_followed(tail, "="@);
        assert(tail == "="@ + value);
    }
}

/// The default model is the one that the first line with a value for it names.
pub proof fn law_first_line_names_the_default(ls: Seq<Seq<char>>, i: int)
    ensures
        0 <= i < ls.len() && value_in(ls[i], "default_model"@) is Some && (forall|k: int|
            0 <= k < i ==> value_in(#[trigger] ls[k], "default_model"@) is None) ==> default_model(
            ls,
        ) == value_in(ls[i], "default_model"@),
        (forall|k: int| 0 <= k < ls.len() ==> value_in(#[trigger] ls[k], "default_model"@) is None)
            ==> default_model(ls) is None,
    decreases ls.len(),
{
    if ls.len() > 0 {
        let rest = ls.drop_first();
        law_first_line_names_the_default(rest, i - 1);
        assert forall|k: int| 0 <= k < rest.len() implies #[trigger] rest[k] == ls[k + 1] by {}
    }
}

/// Whether a line opens a section.
pub open spec fn opens_section(line: Seq<char>) -> bool {
    trim(line).len() > 0 && trim(line)[0] == '['
}

/// Whether the line at `i` stands in a section with the given header: one above
/// it is the header, and none from there on opens another. Where `inside`, the
/// lines begin in the section.
pub open spec fn is_in_section(ls: Seq<Seq<char>>, header: Seq<char>, inside: bool, i: int) -> bool {
    ||| inside && forall|k: int| 0 <= k <= i ==> !opens_section(#[trigger] ls[k])
    ||| exists|s: int|
        {
            &&& 0 <= s < i
            &&& opens_section(#[trigger] ls[s])
            &&& trim(ls[s]) == header
            &&& forall|k: int| s < k <= i ==> !opens_section(#[trigger] ls[k])
        }
}

proof fn lemma_section_of_rest(ls: Seq<Seq<char>>, header: Seq<char>, inside: bool, i: int)
    requires
        0 < i < ls.len(),
    ensures
        is_in_section(ls, header, inside, i) <==> is_in_section(
            ls.drop_first(),
            header,
            if opens_section(ls[0]) {
                trim(ls[0]) == header
            } else {
                inside
            },
            i - 1,
        ),
{
    let rest = ls.drop_first();
    let flag = if opens_section(ls[0]) {
        trim(ls[0]) == header
    } else {
        inside
    };
    assert forall|k: int| 0 <= k < rest.len() implies #[trigger] rest[k] == ls[k + 1] by {}
    if is_in_section(ls, header, inside, i) {
        if inside && forall|k: int| 0 <= k <= i ==> !opens_section(#[trigger] ls[k]) {
            assert(!opens_section(ls[0]));
            assert forall|k: int| 0 <= k <= i - 1 implies !opens_section(#[trigger] rest[k]) by {
                assert(!opens_section(ls[k + 1]));
            }
        } else {
            let s = choose|s: int|
                {
                    &&& 0 <= s < i
                    &&& opens_section(#[trigger] ls[s])
                    &&& trim(ls[s]) == header
                    &&& forall|k: int| s < k <= i ==> !opens_section(#[trigger] ls[k])
                };
            assert forall|k: int| s - 1 < k <= i - 1 && 0 <= k implies !opens_section(
                #[trigger] rest[k],
            ) by {
                assert(!opens_section(ls[k + 1]));
            }
            if s > 0 {
                assert(opens_section(rest[s - 1]));
            }
        }
    }
    if is_in_section(rest, header, flag, i - 1) {
        if flag && forall|k: int| 0 <= k <= i - 1 ==> !opens_section(#[trigger] rest[k]) {
            assert forall|k: int| 0 < k <= i implies !opens_section(#[trigger] ls[k]) by {
                assert(!opens_section(rest[k - 1]));
            }
            if opens_section(ls[0]) {
                assert(trim(ls[0]) == header);
            }
        } else {
            let s = choose|s: int|
                {
                    &&& 0 <= s < i - 1
                    &&& opens_section(#[trigger] rest[s])
                    &&& trim(rest[s]) == header
                    &&& forall|k: int| s < k <= i - 1 ==> !opens_section(#[trigger] rest[k])
                };
            assert(opens_section(ls[s + 1]));
            assert forall|k: int| s + 1 < k <= i implies !opens_section(#[trigger] ls[k]) by {
                assert(!opens_section(rest[k - 1]));
            }
        }
    }
}

/// Whether the line at `i` names the model: it stands in the section of the
/// model and gives a display name.
pub open spec fn names_model(ls: Seq<Seq<char>>, header: Seq<char>, inside: bool, i: int) -> bool {
    !opens_section(ls[i]) && is_in_section(ls, header, inside, i) && value_in(
        trim(ls[i]),
        "display_name"@,
    ) is Some
}

/// The display name is the one that the first such line in the model's own
/// section gives; a name in another section does not count.
pub proof fn law_display_name_is_of_the_section(
    ls: Seq<Seq<char>>,
    header: Seq<char>,
    inside: bool,
    i: int,
)
    ensures
        0 <= i < ls.len() && names_model(ls, header, inside, i) && (forall|k: int|
            0 <= k < i ==> !#[trigger] names_model(ls, header, inside, k)) ==> display_name(
            ls,
            header,
            inside,
        ) == value_in(trim(ls[i]), "display_name"@),
        (forall|k: int| 0 <= k < ls.len() ==> !#[trigger] names_model(ls, header, inside, k))
            ==> display_name(ls, header, inside) is None,
    decreases ls.len(),
{
    if ls.len() > 0 {
        let rest = ls.drop_first();
        let flag = if opens_section(ls[0]) {
            trim(ls[0]) == header
        } else {
            inside
        };
        law_display_name_is_of_the_section(rest, header, flag, i - 1);
        assert forall|k: int| 0 <= k < rest.len() implies names_model(
            ls,
            header,
            inside,
            k + 1,
        ) == #[trigger] names_model(rest, header, flag, k) by {
            lemma_section_of_rest(ls, header, inside, k + 1);
            assert(rest[k] == ls[k + 1]);
        }
        assert(names_model(ls, header, inside, 0) <==> !opens_section(ls[0]) && inside && value_in(
            trim(ls[0]),
            "display_name"@,
        ) is Some);
        assert forall|k: int| 1 <= k < ls.len() implies #[trigger] names_model(
            ls,
            header,
            inside,
            k,
        ) == names_model(rest, header, flag, k - 1) by {
            assert(names_model(ls, header, inside, k - 1 + 1) == names_model(
                rest,
                header,
                flag,
                k - 1,
            ));
        }
        if 0 < i < ls.len() && names_model(ls, header, inside, i) && (forall|k: int|
            0 <= k < i ==> !#[trigger] names_model(ls, header, inside, k)) {
            assert(!names_model(ls, header, inside, 0));
            assert forall|k: int| 0 <= k < i - 1 implies !#[trigger] names_model(
                rest,
                header,
                flag,
                k,
            ) by {
                assert(!names_model(ls, header, inside, k + 1));
            }
            assert(rest[i - 1] == ls[i]);
        }
        if forall|k: int| 0 <= k < ls.len() ==> !#[trigger] names_model(ls, header, inside, k) {
            assert(!names_model(ls, header, inside, 0));
            assert forall|k: int| 0 <= k < rest.len() implies !#[trigger] names_model(
                rest,
                header,
                flag,
                k,
            ) by {
                assert(!names_model(ls, header, inside, k + 1));
            }
        }
    }
}

/// The model is named by its display name, else by its identifier, else after
/// the agent. Its section is that of its identifier in quotes.
pub proof fn law_model_is_named(text: Seq<char>)
    ensures
        configured_model(None) == "kimi-code"@,
        default_model(lines(text)) is None ==> configured_model(Some(text)) == "kimi-code"@,
        default_model(lines(text)) is Some ==> ({
            let id = default_model(lines(text))->0;
            let header = "[models."@ + seq!['"'] + id + seq!['"'] + seq![']'];
            &&& display_name(lines(text), header, false) is Some ==> configured_model(Some(text))
                == display_name(lines(text), header, false)->0
            &&& display_name(lines(text), header, false) is None ==> configured_model(Some(text))
                == id
        }),
{
    if default_model(lines(text)) is Some {
        let id = default_model(lines(text))->0;
        reveal_strlit("[models.\"");
        reveal_strlit("[models.");
        reveal_strlit("\"]");
        assert("[models.\""@ =~= "[models."@ + seq!['"']);
        assert("\"]"@ =~= seq!['"'] + seq![']']);
        assert(model_header(id) =~= "[models."@ + seq!['"'] + id + seq!['"'] + seq![']']);
    }
}

} // verus!
