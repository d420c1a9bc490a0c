//! What the numbers of a document denote.
use crate::json::JsonTree;
use crate::kimi::wire::event_time;
use crate::number::excess;
use crate::number::rounded;
use crate::number::thousandfold;
use crate::number::whole_part;
use crate::text::parsed_u64;
use vstd::arithmetic::div_mod::lemma_fundamental_div_mod;
use vstd::arithmetic::div_mod::lemma_fundamental_div_mod_converse;
use vstd::arithmetic::power2::lemma2_to64;
use vstd::arithmetic::power2::lemma_pow2_adds;
use vstd::arithmetic::power2::lemma_pow2_pos;
use vstd::arithmetic::power2::lemma_pow2_unfold;
use vstd::arithmetic::power2::pow2;
use vstd::prelude::*;

verus! {

/// The bit pattern of the double with the given exponent field and fraction, and
/// no sign.
pub open spec fn double(exponent: nat, fraction: nat) -> nat {
    exponent * 0x10_0000_0000_0000 + fraction
}

/// The whole part of a double below two to the 53rd is the largest whole number
/// that is no larger. A negative number has none.
pub proof fn law_whole_part_is_no_larger(bits: u64, exponent: nat, fraction: nat)
    requires
        bits == double(exponent, fraction),
        1 <= exponent <= 1075,
        fraction < 0x10_0000_0000_0000,
    ensures
        ({
            let unit = pow2((1075 - exponent) as nat);
            let m = 0x10_0000_0000_0000 + fraction;
            whole_part(bits) * unit <= m < (whole_part(bits) + 1) * unit
        }),
        whole_part((bits + 0x8000_0000_0000_0000) as u64) == 0,
{
    let unit = pow2((1075 - exponent) as nat);
    let m = (0x10_0000_0000_0000 + fraction) as int;
    lemma_pow2_pos((1075 - exponent) as nat);
    assert(bits / 0x10_0000_0000_0000 == exponent && bits % 0x10_0000_0000_0000 == fraction);
    assert((exponent as int) % 0x800 == exponent);
    lemma_fundamental_div_mod(m, unit as int);
    assert(m / (unit as int) <= m) by (nonlinear_arith)
        requires
            unit >= 1,
            m >= 0,
    ;
    if exponent == 1075 {
        lemma2_to64();
        assert(m / 1 == m && m * 1 == m);
    }
    assert(whole_part(bits) == m / (unit as int));
    assert(unit * (m / (unit as int)) == (m / (unit as int)) * unit) by (nonlinear_arith);
    assert(((m / (unit as int)) + 1) * unit == (m / (unit as int)) * unit + unit)
        by (nonlinear_arith);
}

proof fn lemma_excess(p: nat, k: nat)
    requires
        p < 0x20_0000_0000_0000 * pow2(k),
    ensures
        excess(p) <= k,
    decreases k,
{
    if p >= 0x20_0000_0000_0000 {
        if k == 0 {
            lemma2_to64();
        } else {
            lemma_pow2_unfold(k);
            assert(p / 2 < 0x20_0000_0000_0000 * pow2((k - 1) as nat));
            lemma_excess(p / 2, (k - 1) as nat);
        }
    }
}

/// A time in seconds that is a whole number of milliseconds, of which a double
/// can hold the number, is read as that many milliseconds.
pub proof fn law_seconds_become_milliseconds(
    bits: u64,
    exponent: nat,
    fraction: nat,
    millis: nat,
)
    requires
        bits == double(exponent, fraction),
        1 <= exponent <= 1075,
        fraction < 0x10_0000_0000_0000,
        1000 * (0x10_0000_0000_0000 + fraction) == millis * pow2((1075 - exponent) as nat),
        millis < 0x20_0000_0000_0000,
    ensures
        thousandfold(bits) == millis,
        thousandfold((bits + 0x8000_0000_0000_0000) as u64) == 0,
{
    let k = (1075 - exponent) as nat;
    let unit = pow2(k);
    let p = (1000 * (0x10_0000_0000_0000 + fraction)) as nat;
    lemma_pow2_pos(k);
    assert(bits / 0x10_0000_0000_0000 == exponent && bits % 0x10_0000_0000_0000 == fraction);
    assert((exponent as int) % 0x800 == exponent);
    assert(p < 0x20_0000_0000_0000 * unit) by (nonlinear_arith)
        requires
            p == millis * unit,
            millis < 0x20_0000_0000_0000,
            unit >= 1,
    ;
    lemma_excess(p, k);
    let x = excess(p);
    let y = (k - x) as nat;
    lemma_pow2_adds(x, y);
    lemma_pow2_pos(x);
    let q = millis * pow2(y);
    assert(p == q * pow2(x)) by (nonlinear_arith)
        requires
            p == millis * unit,
            unit == pow2(x) * pow2(y),
            q == millis * pow2(y),
    ;
    lemma_fundamental_div_mod_converse(p as int, pow2(x) as int, q as int, 0);
    assert(rounded(p) == p);
    assert(p == millis * unit + 0);
    lemma_fundamental_div_mod_converse(p as int, unit as int, millis as int, 0);
}

/// The time of an event is its number, or the whole part of it, or the number
/// that its text writes; anything else is no time.
pub proof fn law_event_time_is_a_number(v: JsonTree)
    ensures
        event_time(None) is None,
        v is Number && v->Number_0.unsigned is Some ==> event_time(Some(v))
            == v->Number_0.unsigned,
        v is Number && v->Number_0.unsigned is None ==> event_time(Some(v)) == Some(
            whole_part(v->Number_0.bits),
        ),
        v is Text ==> event_time(Some(v)) == parsed_u64(v->Text_0),
        !(v is Number) && !(v is Text) ==> event_time(Some(v)) is None,
{
}

/// What is no number has the whole part 0; a number above all that can be
/// counted has the largest whole part, and one between is a whole number.
pub proof fn law_large_numbers_are_bounded(bits: u64, exponent: nat, fraction: nat)
    requires
        bits == double(exponent, fraction),
        exponent <= 2047,
        fraction < 0x10_0000_0000_0000,
    ensures
        exponent == 2047 && fraction > 0 ==> whole_part(bits) == 0 && thousandfold(bits) == 0,
        1075 < exponent && (exponent < 2047 || fraction == 0) ==> ({
            let n = (0x10_0000_0000_0000 + fraction) * pow2((exponent - 1075) as nat);
            &&& n <= u64::MAX ==> whole_part(bits) == n
            &&& n > u64::MAX ==> whole_part(bits) == u64::MAX
        }),
{
    assert(bits / 0x10_0000_0000_0000 == exponent && bits % 0x10_0000_0000_0000 == fraction);
    assert((exponent as int) % 0x800 == exponent);
}

} // verus!
