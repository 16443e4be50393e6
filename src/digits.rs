use vstd::prelude::*;

verus! {

/// The ASCII byte of a decimal digit.
pub open spec fn digit_byte(d: nat) -> u8 {
    (48 + d % 10) as u8
}

pub open spec fn is_digit(b: u8) -> bool {
    48 <= b <= 57
}

pub open spec fn all_digits(s: Seq<u8>) -> bool {
    forall|i: int| 0 <= i < s.len() ==> is_digit(#[trigger] s[i])
}

/// The number that a sequence of decimal digits spells, most significant first.
pub open spec fn digits_value(s: Seq<u8>) -> nat
    decreases s.len(),
{
    if s.len() == 0 {
        0
    } else {
        digits_value(s.drop_last()) * 10 + (s.last() - 48) as nat
    }
}

pub open spec fn pow10(w: nat) -> nat
    decreases w,
{
    if w == 0 {
        1
    } else {
        10 * pow10((w - 1) as nat)
    }
}

/// `v` written with exactly `w` digits, zero-padded on the left.
pub open spec fn fixed_digits(v: nat, w: nat) -> Seq<u8>
    decreases w,
{
    if w == 0 {
        Seq::empty()
    } else {
        fixed_digits(v / 10, (w - 1) as nat).push(digit_byte(v % 10))
    }
}

/// `v` written with as few digits as it takes (one for zero).
pub open spec fn decimal(v: nat) -> Seq<u8>
    decreases v,
{
    if v < 10 {
        seq![digit_byte(v)]
    } else {
        decimal(v / 10).push(digit_byte(v % 10))
    }
}

pub proof fn lemma_fixed_digits(v: nat, w: nat)
    requires
        v < pow10(w),
    ensures
        fixed_digits(v, w).len() == w,
        all_digits(fixed_digits(v, w)),
        digits_value(fixed_digits(v, w)) == v,
    decreases w,
{
    if w > 0 {
        let p = pow10((w - 1) as nat);
        assert(v / 10 < p) by (nonlinear_arith)
            requires
                v < 10 * p,
        ;
        lemma_fixed_digits(v / 10, (w - 1) as nat);
        let s = fixed_digits(v, w);
        assert(s.drop_last() =~= fixed_digits(v / 10, (w - 1) as nat));
        assert((v / 10) * 10 + v % 10 == v) by (nonlinear_arith);
    } else {
        assert(v == 0);
    }
}

pub proof fn lemma_decimal(v: nat)
    ensures
        decimal(v).len() >= 1,
        all_digits(decimal(v)),
        digits_value(decimal(v)) == v,
    decreases v,
{
    let s = decimal(v);
    if v < 10 {
        assert(s.drop_last() =~= Seq::<u8>::empty());
        assert(v % 10 == v);
        assert(digits_value(Seq::<u8>::empty()) == 0);
    } else {
        lemma_decimal(v / 10);
        assert(s.drop_last() =~= decimal(v / 10));
        assert((v / 10) * 10 + v % 10 == v) by (nonlinear_arith);
    }
}

pub proof fn lemma_decimal_len(v: nat, w: nat)
    requires
        v < pow10(w),
        w >= 1,
    ensures
        decimal(v).len() <= w,
    decreases w,
{
    if v >= 10 {
        let p = pow10((w - 1) as nat);
        assert(v / 10 < p) by (nonlinear_arith)
            requires
                v < 10 * p,
        ;
        if w == 1 {
            assert(p == 1);
        } else {
            lemma_decimal_len(v / 10, (w - 1) as nat);
        }
    }
}

pub proof fn lemma_digits_value_bound(s: Seq<u8>)
    requires
        all_digits(s),
    ensures
        digits_value(s) < pow10(s.len()),
    decreases s.len(),
{
    if s.len() > 0 {
        assert(all_digits(s.drop_last()));
        lemma_digits_value_bound(s.drop_last());
        assert(is_digit(s[s.len() - 1]));
        let a = digits_value(s.drop_last());
        let p = pow10((s.len() - 1) as nat);
        let d = (s.last() - 48) as nat;
        assert(a * 10 + d < 10 * p) by (nonlinear_arith)
            requires
                a < p,
                d <= 9,
        ;
    }
}

/// Appends `v` written with exactly `w` digits.
pub fn push_fixed(out: &mut Vec<u8>, v: u32, w: usize)
    requires
        (v as nat) < pow10(w as nat),
    ensures
        final(out)@ == old(out)@ + fixed_digits(v as nat, w as nat),
    decreases w,
{
    if w == 0 {
        assert(old(out)@ + Seq::<u8>::empty() =~= old(out)@);
    } else {
        let ghost p = pow10((w - 1) as nat);
        assert(((v / 10) as nat) < p) by (nonlinear_arith)
            requires
                v < 10 * p,
        ;
        push_fixed(out, v / 10, w - 1);
        out.push(48 + (v % 10) as u8);
        assert(out@ =~= old(out)@ + fixed_digits(v as nat, w as nat));
    }
}

/// Appends `v` in decimal, with as few digits as it takes.
pub fn push_decimal(out: &mut Vec<u8>, v: u32)
    ensures
        final(out)@ == old(out)@ + decimal(v as nat),
    decreases v,
{
    if v >= 10 {
        push_decimal(out, v / 10);
    }
    out.push(48 + (v % 10) as u8);
    assert(out@ =~= old(out)@ + decimal(v as nat));
}

/// Reads the `w` bytes of `s` from `start` as a decimal number of at most nine digits.
pub fn parse_digits(s: &[u8], start: usize, w: usize) -> (r: Option<u32>)
    requires
        w <= 9,
        start + w <= s@.len(),
    ensures
        r is Some <==> all_digits(s@.subrange(start as int, start + w)),
        r matches Some(v) ==> v as nat == digits_value(s@.subrange(start as int, start + w)),
{
    let ghost g = s@.subrange(start as int, start + w);
    let n = s.len();
    let mut acc: u32 = 0;
    let mut i: usize = 0;
    while i < w
        invariant
            n == s@.len(),
            i <= w <= 9,
            start + w <= s@.len(),
            g == s@.subrange(start as int, start + w),
            all_digits(g.take(i as int)),
            acc as nat == digits_value(g.take(i as int)),
            (acc as nat) < pow10(i as nat),
        decreases w - i,
    {
        let b = s[start + i];
        assert(b == g[i as int]);
        if b < 48 || b > 57 {
            assert(!is_digit(g[i as int]));
            return None;
        }
        let ghost t = g.take(i as int + 1);
        assert(t.drop_last() =~= g.take(i as int));
        assert(all_digits(t));
        proof {
            lemma_digits_value_bound(t);
            lemma_pow10_bound(i as nat + 1);
        }
        acc = acc * 10 + (b - 48) as u32;
        i = i + 1;
    }
    assert(g.take(i as int) =~= g);
    Some(acc)
}

pub proof fn lemma_pow10_bound(w: nat)
    requires
        w <= 9,
    ensures
        pow10(w) <= 1_000_000_000,
    decreases 9 - w,
{
    reveal_with_fuel(pow10, 10);
    if w < 9 {
        lemma_pow10_bound(w + 1);
        assert(pow10(w + 1) == 10 * pow10(w));
    }
}

} // verus!
