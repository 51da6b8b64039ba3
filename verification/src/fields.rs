//! Textual representations of right-justified text and number fields.
//!
//! A field of width `w` is a sequence of exactly `w` characters: the
//! rendered text, right-justified, preceded by blanks; when the text is
//! longer than the field, its leading (most significant) characters are
//! dropped and only the trailing `w` remain.

use vstd::prelude::*;

verus! {

/// The glyph of one decimal digit.
pub open spec fn digit_char(d: int) -> char {
    if d == 0 {
        '0'
    } else if d == 1 {
        '1'
    } else if d == 2 {
        '2'
    } else if d == 3 {
        '3'
    } else if d == 4 {
        '4'
    } else if d == 5 {
        '5'
    } else if d == 6 {
        '6'
    } else if d == 7 {
        '7'
    } else if d == 8 {
        '8'
    } else {
        '9'
    }
}

/// The numeric value of one decimal digit glyph.
pub open spec fn digit_val(c: char) -> int {
    if c == '0' {
        0
    } else if c == '1' {
        1
    } else if c == '2' {
        2
    } else if c == '3' {
        3
    } else if c == '4' {
        4
    } else if c == '5' {
        5
    } else if c == '6' {
        6
    } else if c == '7' {
        7
    } else if c == '8' {
        8
    } else {
        9
    }
}

/// The decimal digits of `v`, most significant first; `0` is the single
/// digit `0`.
pub open spec fn dec_rep(v: nat) -> Seq<char>
    decreases v,
{
    if v < 10 {
        seq![digit_char(v as int)]
    } else {
        dec_rep(v / 10).push(digit_char((v % 10) as int))
    }
}

/// `n` copies of `c`.
pub open spec fn repeat_char(c: char, n: nat) -> Seq<char> {
    Seq::new(n, |i: int| c)
}

/// `n` blank cells.
pub open spec fn blanks(n: nat) -> Seq<char> {
    repeat_char(' ', n)
}

/// `rep`, right-justified in a field of exactly `width` cells: padded with
/// blanks on the left, or, when too long, with only its last `width`
/// characters kept.
pub open spec fn right_field(rep: Seq<char>, width: nat) -> Seq<char> {
    if rep.len() >= width {
        rep.skip(rep.len() - width)
    } else {
        blanks((width - rep.len()) as nat) + rep
    }
}

/// The magnitude of `v`.
pub open spec fn abs_int(v: int) -> nat {
    if v < 0 {
        (-v) as nat
    } else {
        v as nat
    }
}

/// The signed decimal representation of `value`.
pub open spec fn int_rep(value: int) -> Seq<char> {
    if value < 0 {
        seq!['-'] + dec_rep((-value) as nat)
    } else {
        dec_rep(value as nat)
    }
}

/// The field that a right-justified signed integer write leaves behind.
pub open spec fn int_field(value: int, width: nat) -> Seq<char> {
    right_field(int_rep(value), width)
}

/// Ten to the power `p`.
pub open spec fn pow10(p: nat) -> nat
    decreases p,
{
    if p == 0 {
        1nat
    } else {
        10 * pow10((p - 1) as nat)
    }
}

/// The last `p` decimal digits of `f`, zero padded, most significant first.
pub open spec fn frac_rep(f: nat, p: nat) -> Seq<char>
    decreases p,
{
    if p == 0 {
        Seq::<char>::empty()
    } else {
        frac_rep(f / 10, (p - 1) as nat).push(digit_char((f % 10) as int))
    }
}

/// The fixed-point representation of the pre-scaled integer `scaled`,
/// which stands for the number `scaled / 10^precision`: a minus sign for
/// a negative value, the truncated integer part, then, for a positive
/// precision, a point and exactly `precision` fraction digits.
pub open spec fn fixed_rep(scaled: int, precision: nat) -> Seq<char> {
    let m = abs_int(scaled);
    let scale = pow10(precision);
    let ip = m / scale;
    let sign: Seq<char> = if scaled < 0 {
        seq!['-']
    } else {
        Seq::<char>::empty()
    };
    let tail: Seq<char> = if precision == 0 {
        Seq::<char>::empty()
    } else {
        seq!['.'] + frac_rep(m % scale, precision)
    };
    sign + dec_rep(ip) + tail
}

/// The field that a right-justified fixed-point write leaves behind.
pub open spec fn fixed_field(scaled: int, width: nat, precision: nat) -> Seq<char> {
    right_field(fixed_rep(scaled, precision), width)
}

/// The value of a sequence of decimal digit glyphs, most significant first.
pub open spec fn dec_value(s: Seq<char>) -> int
    decreases s.len(),
{
    if s.len() == 0 {
        0
    } else {
        dec_value(s.drop_last()) * 10 + digit_val(s.last())
    }
}

/// A zero value in a field of positive width renders as blanks followed by
/// a single `0` in the rightmost cell.
pub proof fn lemma_zero_int_field(width: nat)
    requires
        width >= 1,
    ensures
        int_field(0, width) == blanks((width - 1) as nat).push('0'),
{
    reveal_with_fuel(dec_rep, 2);
    assert(int_rep(0) =~= seq!['0']);
    assert(int_field(0, width) =~= blanks((width - 1) as nat).push('0'));
}

/// Reading the decimal digits of `v` back yields `v`.
pub proof fn lemma_dec_rep_value(v: nat)
    ensures
        dec_value(dec_rep(v)) == v,
    decreases v,
{
    if v < 10 {
        reveal_with_fuel(dec_value, 2);
        assert(dec_rep(v).drop_last() =~= Seq::<char>::empty());
        assert(dec_value(dec_rep(v)) == v);
    } else {
        lemma_dec_rep_value(v / 10);
        assert(dec_rep(v).drop_last() =~= dec_rep(v / 10));
    }
}

/// `frac_rep` has exactly `p` digits.
proof fn lemma_frac_rep_len(f: nat, p: nat)
    ensures
        frac_rep(f, p).len() == p,
    decreases p,
{
    if p > 0 {
        lemma_frac_rep_len(f / 10, (p - 1) as nat);
    }
}

/// Reading the `p` padded fraction digits of `f` back yields `f` modulo
/// ten to the `p`.
pub proof fn lemma_frac_rep_value(f: nat, p: nat)
    ensures
        dec_value(frac_rep(f, p)) == (f as int) % (pow10(p) as int),
    decreases p,
{
    if p == 0 {
        assert((f as int) % 1int == 0) by {
            vstd::arithmetic::div_mod::lemma_small_mod(f % 1, 1nat);
            vstd::arithmetic::div_mod::lemma_mod_bound(f as int, 1int);
        }
    } else {
        let a = pow10((p - 1) as nat) as int;
        lemma_frac_rep_value(f / 10, (p - 1) as nat);
        lemma_pow10_pos((p - 1) as nat);
        assert(frac_rep(f, p).drop_last() =~= frac_rep(f / 10, (p - 1) as nat));
        assert(dec_value(frac_rep(f, p)) == ((f / 10) as int % a) * 10 + (f % 10) as int);
        let q = (f / 10) as int / a;
        assert((f / 10) as int == q * a + (f / 10) as int % a) by {
            vstd::arithmetic::div_mod::lemma_fundamental_div_mod((f / 10) as int, a);
        }
        assert(f as int == 10 * (f / 10) as int + (f % 10) as int) by {
            vstd::arithmetic::div_mod::lemma_fundamental_div_mod(f as int, 10);
        }
        assert(0 <= (f / 10) as int % a < a) by {
            vstd::arithmetic::div_mod::lemma_mod_bound((f / 10) as int, a);
        }
        let r = ((f / 10) as int % a) * 10 + (f % 10) as int;
        assert(f as int == q * (10 * a) + r) by (nonlinear_arith)
            requires
                (f / 10) as int == q * a + (f / 10) as int % a,
                f as int == 10 * (f / 10) as int + (f % 10) as int,
                r == ((f / 10) as int % a) * 10 + (f % 10) as int,
        ;
        assert(0 <= r < 10 * a);
        assert(f as int % (10 * a) == r) by {
            vstd::arithmetic::div_mod::lemma_fundamental_div_mod_converse(
                f as int,
                10 * a,
                q,
                r,
            );
        }
        assert(pow10(p) as int == 10 * a);
    }
}

/// Ten to any power is positive.
pub proof fn lemma_pow10_pos(p: nat)
    ensures
        pow10(p) >= 1,
    decreases p,
{
    if p > 0 {
        lemma_pow10_pos((p - 1) as nat);
    }
}

/// A fixed-point field wide enough for its whole representation reads
/// back to exactly the scaled value it was written from: after the
/// leading blanks stand an optional sign, the integer digits, the point,
/// and the fraction digits, and their combined value is `scaled`.
pub proof fn lemma_fixed_field_reads_back(scaled: int, width: nat, precision: nat)
    requires
        width >= fixed_rep(scaled, precision).len(),
    ensures
        ({
            let m = abs_int(scaled);
            let ip = m / pow10(precision);
            let fr = m % pow10(precision);
            let sign: Seq<char> = if scaled < 0 {
                seq!['-']
            } else {
                Seq::<char>::empty()
            };
            let tail: Seq<char> = if precision == 0 {
                Seq::<char>::empty()
            } else {
                seq!['.'] + frac_rep(fr, precision)
            };
            let body = fixed_rep(scaled, precision);
            &&& fixed_field(scaled, width, precision) == blanks((width - body.len()) as nat)
                + body
            &&& body == sign + dec_rep(ip) + tail
            &&& dec_value(dec_rep(ip)) == ip
            &&& dec_value(frac_rep(fr, precision)) == fr
            &&& (if scaled < 0 {
                -1int
            } else {
                1int
            }) * (dec_value(dec_rep(ip)) * pow10(precision) + dec_value(
                frac_rep(fr, precision),
            )) == scaled
        }),
{
    let m = abs_int(scaled);
    let scale = pow10(precision);
    lemma_pow10_pos(precision);
    let ip = m / scale;
    let fr = m % scale;
    lemma_frac_rep_len(fr, precision);
    lemma_dec_rep_value(ip);
    lemma_frac_rep_value(fr, precision);
    assert(fr < scale) by {
        vstd::arithmetic::div_mod::lemma_mod_bound(m as int, scale as int);
    }
    assert((fr as int) % (scale as int) == fr as int) by {
        vstd::arithmetic::div_mod::lemma_small_mod(fr, scale);
    }
    assert(ip * scale + fr == m) by {
        vstd::arithmetic::div_mod::lemma_fundamental_div_mod(m as int, scale as int);
    }
    let body = fixed_rep(scaled, precision);
    assert(fixed_field(scaled, width, precision) =~= blanks((width - body.len()) as nat) + body);
    assert(dec_value(dec_rep(ip)) * pow10(precision) + dec_value(frac_rep(fr, precision)) == ip
        * scale + fr);
    if scaled < 0 {
        assert(m == -scaled);
    } else {
        assert(m == scaled);
    }
}

/// Appends the decimal digits of `m`, most significant first.
pub fn push_dec(out: &mut Vec<char>, m: u64)
    ensures
        final(out)@ == old(out)@ + dec_rep(m as nat),
    decreases m,
{
    if m >= 10 {
        push_dec(out, m / 10);
    }
    out.push(digit_glyph(m % 10));
    proof {
        assert(out@ =~= old(out)@ + dec_rep(m as nat));
    }
}

/// Appends the last `p` decimal digits of `f`, zero padded, most
/// significant first.
pub fn push_frac(out: &mut Vec<char>, f: u64, p: usize)
    ensures
        final(out)@ == old(out)@ + frac_rep(f as nat, p as nat),
    decreases p,
{
    if p > 0 {
        push_frac(out, f / 10, p - 1);
        out.push(digit_glyph(f % 10));
    }
    proof {
        assert(out@ =~= old(out)@ + frac_rep(f as nat, p as nat));
    }
}

/// The glyph of the digit `d`.
pub fn digit_glyph(d: u64) -> (c: char)
    requires
        d < 10,
    ensures
        c == digit_char(d as int),
{
    if d == 0 {
        '0'
    } else if d == 1 {
        '1'
    } else if d == 2 {
        '2'
    } else if d == 3 {
        '3'
    } else if d == 4 {
        '4'
    } else if d == 5 {
        '5'
    } else if d == 6 {
        '6'
    } else if d == 7 {
        '7'
    } else if d == 8 {
        '8'
    } else {
        '9'
    }
}

/// Ten to the power `p`, as a machine word.
pub fn pow10_u64(p: usize) -> (r: u64)
    requires
        p <= 19,
    ensures
        r == pow10(p as nat),
{
    let mut r: u64 = 1;
    let mut i: usize = 0;
    while i < p
        invariant
            i <= p,
            p <= 19,
            r == pow10(i as nat),
        decreases p - i,
    {
        proof {
            lemma_pow10_mono((i + 1) as nat, 19);
            reveal_with_fuel(pow10, 21);
            assert(pow10(19) == 10000000000000000000nat);
        }
        r = r * 10;
        i = i + 1;
    }
    r
}

/// Ten to a power grows with the power.
pub proof fn lemma_pow10_mono(a: nat, b: nat)
    requires
        a <= b,
    ensures
        pow10(a) <= pow10(b),
    decreases b,
{
    if a < b {
        lemma_pow10_mono(a, (b - 1) as nat);
        lemma_pow10_pos((b - 1) as nat);
    }
}

} // verus!
