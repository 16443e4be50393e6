use vstd::prelude::*;
use vstd::string::{StrSliceExecFns, StringExecFns};

verus! {

pub const DIGITS: &'static str = "0123456789";

pub open spec fn digit_char(d: nat) -> char {
    DIGITS@[(d % 10) as int]
}

/// `v` in decimal, with as few digits as it takes.
pub open spec fn decimal_text(v: nat) -> Seq<char>
    decreases v,
{
    if v < 10 {
        seq![digit_char(v)]
    } else {
        decimal_text(v / 10).push(digit_char(v % 10))
    }
}

/// `v` in decimal with exactly `w` digits, zero-padded on the left.
pub open spec fn padded_text(v: nat, w: nat) -> Seq<char>
    decreases w,
{
    if w == 0 {
        Seq::empty()
    } else {
        padded_text(v / 10, (w - 1) as nat).push(digit_char(v % 10))
    }
}

/// Relies on `String::push`: the character is added at the end.
#[verifier::external_body]
pub(crate) fn push_char(s: &mut String, c: char)
    ensures
        final(s)@ == old(s)@.push(c),
{
    s.push(c);
}

pub(crate) fn push_str(s: &mut String, t: &str)
    ensures
        final(s)@ == old(s)@ + t@,
{
    s.append(t);
}

pub(crate) fn push_decimal_text(s: &mut String, v: u32)
    ensures
        final(s)@ == old(s)@ + decimal_text(v as nat),
    decreases v,
{
    proof {
        reveal_strlit("0123456789");
    }
    if v >= 10 {
        push_decimal_text(s, v / 10);
    }
    let c = DIGITS.get_char((v % 10) as usize);
    push_char(s, c);
    assert(s@ =~= old(s)@ + decimal_text(v as nat));
}

pub(crate) fn push_padded_text(s: &mut String, v: u32, w: usize)
    ensures
        final(s)@ == old(s)@ + padded_text(v as nat, w as nat),
    decreases w,
{
    proof {
        reveal_strlit("0123456789");
    }
    if w == 0 {
        assert(old(s)@ + Seq::<char>::empty() =~= old(s)@);
    } else {
        push_padded_text(s, v / 10, w - 1);
        let c = DIGITS.get_char((v % 10) as usize);
        push_char(s, c);
        assert(s@ =~= old(s)@ + padded_text(v as nat, w as nat));
    }
}

} // verus!
