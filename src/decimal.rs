use vstd::prelude::*;

use crate::lexical::{digit_run, digit_run_exec, is_digit};

verus! {

/// A decimal number `±mantissa / 10^scale`.
#[derive(Debug, Clone, Copy, PartialEq, Eq, Structural)]
pub struct Decimal {
    pub negative: bool,
    pub mantissa: u128,
    pub scale: usize,
}

pub open spec fn pow10(n: nat) -> nat
    decreases n,
{
    if n == 0 {
        1
    } else {
        10 * pow10((n - 1) as nat)
    }
}

/// `m / 10^k`, rounded to the nearest integer, ties to the even one.
pub open spec fn round_shift(m: nat, k: nat) -> nat {
    let d = pow10(k);
    let q = m / d;
    let r = m % d;
    if 2 * r > d || (2 * r == d && q % 2 == 1) {
        q + 1
    } else {
        q
    }
}

/// The last `w` decimal digits of `n`, with leading zeros.
pub open spec fn padded(n: nat, w: nat) -> Seq<char> {
    Seq::new(w, |i: int| digit_char((n / pow10((w - 1 - i) as nat)) % 10))
}

pub open spec fn zeros(c: nat) -> Seq<char> {
    Seq::new(c, |i: int| '0')
}

pub open spec fn digit_char(d: nat) -> char {
    if d == 0 {
        '0'
    } else if d == 1 {
        '1'
    } else if d == 2 {
        '2'
    } else if d == 3 {
        '3'
    } else if d == 4 {
        '4'
    } else if d == 5 {
        '5'
    } else if d == 6 {
        '6'
    } else if d == 7 {
        '7'
    } else if d == 8 {
        '8'
    } else {
        '9'
    }
}

/// The number that a run of decimal digit bytes spells.
pub open spec fn digits_value(s: Seq<u8>) -> nat
    decreases s.len(),
{
    if s.len() == 0 {
        0
    } else {
        digits_value(s.drop_last()) * 10 + (s.last() - 48) as nat
    }
}

/// The decimal that `s` spells in plain notation, `[-] digits [. digits]`,
/// where its mantissa fits in 128 bits; `None` for any other text.
pub open spec fn plain_decimal(s: Seq<u8>) -> Option<Decimal> {
    let negative = s.len() > 0 && s[0] == 45;
    let a: int = if negative {
        1
    } else {
        0
    };
    let int_len = digit_run(s, a);
    let b = a + int_len;
    let has_point = b < s.len() && s[b] == 46;
    let frac_len = if has_point {
        digit_run(s, b + 1)
    } else {
        0
    };
    let end = if has_point {
        b + 1 + frac_len
    } else {
        b
    };
    let digits = s.subrange(a, b) + s.subrange(if has_point { b + 1 } else { b }, end);
    if int_len > 0 && (!has_point || frac_len > 0) && end == s.len() && digits_value(digits)
        <= 0xffff_ffff_ffff_ffff_ffff_ffff_ffff_ffff {
        Some(
            Decimal { negative, mantissa: digits_value(digits) as u128, scale: frac_len as usize },
        )
    } else {
        None
    }
}

/// Appending digits never makes the value smaller.
proof fn lemma_digits_value_prefix(x: Seq<u8>, y: Seq<u8>)
    ensures
        digits_value(x + y) >= digits_value(x),
    decreases y.len(),
{
    if y.len() == 0 {
        assert(x + y =~= x);
    } else {
        assert((x + y).drop_last() =~= x + y.drop_last());
        lemma_digits_value_prefix(x, y.drop_last());
    }
}

/// Extends the value `m` of the digits `prefix` by the digits `s[from..to]`;
/// `None` once the value no longer fits in 128 bits.
fn accumulate_digits(s: &[u8], from: usize, to: usize, m: u128, Ghost(prefix): Ghost<Seq<u8>>) -> (r:
    Option<u128>)
    requires
        from <= to <= s@.len(),
        forall|k: int| from <= k < to ==> is_digit(#[trigger] s@[k]),
        m == digits_value(prefix),
    ensures
        r matches Some(v) ==> v == digits_value(prefix + s@.subrange(from as int, to as int)),
        r is None ==> digits_value(prefix + s@.subrange(from as int, to as int))
            > 0xffff_ffff_ffff_ffff_ffff_ffff_ffff_ffff,
{
    let mut acc = m;
    let mut i = from;
    assert(prefix + s@.subrange(from as int, from as int) =~= prefix);
    while i < to
        invariant
            from <= i <= to <= s@.len(),
            forall|k: int| from <= k < to ==> is_digit(#[trigger] s@[k]),
            acc == digits_value(prefix + s@.subrange(from as int, i as int)),
        decreases to - i,
    {
        let ghost before = prefix + s@.subrange(from as int, i as int);
        let ghost after = prefix + s@.subrange(from as int, i + 1);
        assert(after.drop_last() =~= before);
        assert(is_digit(s@[i as int]));
        let d = (s[i] - 48) as u128;
        if acc > (0xffff_ffff_ffff_ffff_ffff_ffff_ffff_ffffu128 - d) / 10 {
            proof {
                assert(acc * 10 + d > 0xffff_ffff_ffff_ffff_ffff_ffff_ffff_ffff) by (nonlinear_arith)
                    requires
                        acc > (0xffff_ffff_ffff_ffff_ffff_ffff_ffff_ffffu128 - d) / 10,
                        d <= 9,
                ;
                assert(prefix + s@.subrange(from as int, to as int) =~= after + s@.subrange(
                    i + 1,
                    to as int,
                ));
                lemma_digits_value_prefix(after, s@.subrange(i + 1, to as int));
            }
            return None;
        }
        acc = acc * 10 + d;
        i = i + 1;
    }
    Some(acc)
}

pub open spec fn is_digit_char(c: char) -> bool {
    '0' <= c && c <= '9'
}

/// The decimal digits of `n`, without leading zeros.
pub open spec fn digits_of(n: nat) -> Seq<char>
    decreases n,
{
    if n < 10 {
        seq![digit_char(n)]
    } else {
        digits_of(n / 10).push(digit_char(n % 10))
    }
}

impl Decimal {
    /// Reads a decimal in plain notation, as `Display` writes numbers.
    pub fn parse_plain(s: &[u8]) -> (r: Option<Decimal>)
        ensures
            r == plain_decimal(s@),
    {
        let len = s.len();
        let negative = len > 0 && s[0] == 45;
        let a: usize = if negative {
            1
        } else {
            0
        };
        let int_len = digit_run_exec(s, a);
        let b = a + int_len;
        let has_point = b < len && s[b] == 46;
        let frac_start: usize = if has_point {
            b + 1
        } else {
            b
        };
        let frac_len = if has_point {
            digit_run_exec(s, b + 1)
        } else {
            0
        };
        let end = frac_start + frac_len;
        if int_len == 0 || (has_point && frac_len == 0) || end != len {
            return None;
        }
        proof {
            assert(s@.subrange(a as int, b as int) =~= Seq::<u8>::empty() + s@.subrange(a as int, b as int));
            lemma_digits_value_prefix(s@.subrange(a as int, b as int), s@.subrange(frac_start as int, end as int));
        }
        let m = match accumulate_digits(s, a, b, 0, Ghost(Seq::<u8>::empty())) {
            Some(m) => m,
            None => return None,
        };
        let m = match accumulate_digits(s, frac_start, end, m, Ghost(s@.subrange(a as int, b as int))) {
            Some(m) => m,
            None => return None,
        };
        Some(Decimal { negative, mantissa: m, scale: frac_len })
    }

    /// The integer whose last `kept_scale(p)` digits are the fractional digits
    /// written: the mantissa itself where `p` covers the scale, else the
    /// mantissa rounded to `p` fractional digits.
    pub open spec fn kept(self, p: nat) -> nat {
        if p >= self.scale {
            self.mantissa as nat
        } else {
            round_shift(self.mantissa as nat, (self.scale - p) as nat)
        }
    }

    pub open spec fn kept_scale(self, p: nat) -> nat {
        if p >= self.scale {
            self.scale as nat
        } else {
            p
        }
    }

    /// The value written with exactly `p` digits after the decimal point (and no
    /// point when `p` is zero): rounded half to even where the value has more
    /// fractional digits, padded with zeros where it has fewer, never in
    /// exponent form.
    pub open spec fn fixed_text(self, p: nat) -> Seq<char> {
        let n = self.kept(p);
        let e = self.kept_scale(p);
        let sign = if self.negative {
            seq!['-']
        } else {
            Seq::<char>::empty()
        };
        if p == 0 {
            sign + digits_of(n / pow10(e))
        } else {
            sign + digits_of(n / pow10(e)) + seq!['.'] + padded(n, e) + zeros((p - e) as nat)
        }
    }

    /// Appends the value with exactly `precision` fractional digits.
    pub fn write_fixed(&self, out: &mut String, precision: usize)
        ensures
            final(out)@ == old(out)@ + self.fixed_text(precision as nat),
    {
        let (n, e) = if precision >= self.scale {
            (self.mantissa, self.scale)
        } else {
            (round_shift_exec(self.mantissa, self.scale - precision), precision)
        };
        if self.negative {
            out.append("-");
            proof {
                reveal_strlit("-");
            }
        }
        let ghost signed = out@;
        write_digits(out, shift_down(n, e));
        if precision > 0 {
            out.append(".");
            proof {
                reveal_strlit(".");
            }
            write_padded(out, n, e);
            write_zeros(out, precision - e);
        }
        proof {
            let sign = if self.negative {
                seq!['-']
            } else {
                Seq::<char>::empty()
            };
            assert(signed == old(out)@ + sign);
            assert(final(out)@ =~= old(out)@ + self.fixed_text(precision as nat));
        }
    }
}

proof fn lemma_digit_char_is_digit(d: nat)
    ensures
        is_digit_char(digit_char(d)),
{
}

/// Every character of `digits_of(n)` is a decimal digit, and there is one.
pub proof fn lemma_digits_of_are_digits(n: nat)
    ensures
        digits_of(n).len() >= 1,
        forall|i: int| 0 <= i < digits_of(n).len() ==> is_digit_char(#[trigger] digits_of(n)[i]),
    decreases n,
{
    lemma_digit_char_is_digit(n);
    lemma_digit_char_is_digit(n % 10);
    if n >= 10 {
        lemma_digits_of_are_digits(n / 10);
    }
}

/// The fractional part written, `padded(n, e) + zeros(c)`, is `e + c` digits.
pub proof fn lemma_fraction_digits(n: nat, e: nat, c: nat)
    ensures
        (padded(n, e) + zeros(c)).len() == e + c,
        forall|i: int|
            0 <= i < e + c ==> is_digit_char(#[trigger] (padded(n, e) + zeros(c))[i]),
{
    let f = padded(n, e) + zeros(c);
    assert forall|i: int| 0 <= i < e + c implies is_digit_char(#[trigger] f[i]) by {
        if i < e {
            lemma_digit_char_is_digit((n / pow10((e - 1 - i) as nat)) % 10);
        }
    }
}

/// A value written with precision `p > 0` has exactly `p` digits after its
/// only decimal point, whatever the value's magnitude, scale or sign; with
/// precision zero it has no point.
pub proof fn lemma_fixed_text_precision(v: Decimal, p: nat)
    ensures
        p > 0 ==> ({
            let t = v.fixed_text(p);
            &&& t.len() > p
            &&& t[t.len() - p - 1] == '.'
            &&& forall|i: int| t.len() - p <= i < t.len() ==> is_digit_char(#[trigger] t[i])
            &&& forall|i: int| 0 <= i < t.len() - p - 1 ==> #[trigger] t[i] != '.'
        }),
        p == 0 ==> forall|i: int|
            0 <= i < v.fixed_text(p).len() ==> #[trigger] v.fixed_text(p)[i] != '.',
{
    lemma_fixed_text_chars(v, p);
    let n = v.kept(p);
    let e = v.kept_scale(p);
    let sign = if v.negative {
        seq!['-']
    } else {
        Seq::<char>::empty()
    };
    let whole = digits_of(n / pow10(e));
    lemma_digits_of_are_digits(n / pow10(e));
    if p > 0 {
        let frac = padded(n, e) + zeros((p - e) as nat);
        lemma_fraction_digits(n, e, (p - e) as nat);
        let t = v.fixed_text(p);
        assert(t =~= sign + whole + seq!['.'] + frac);
        assert forall|i: int| t.len() - p <= i < t.len() implies is_digit_char(#[trigger] t[i]) by {
            assert(t[i] == frac[i - (t.len() - p)]);
        }
        assert forall|i: int| 0 <= i < t.len() - p - 1 implies #[trigger] t[i] != '.' by {
            if i >= sign.len() {
                assert(t[i] == whole[i - sign.len()]);
            }
        }
    } else {
        let t = v.fixed_text(p);
        assert(t == sign + whole);
        assert forall|i: int| 0 <= i < t.len() implies #[trigger] t[i] != '.' by {
            if i >= sign.len() {
                assert(t[i] == whole[i - sign.len()]);
            }
        }
    }
}

/// The written value holds only digits, a leading minus and a point.
pub proof fn lemma_fixed_text_chars(v: Decimal, p: nat)
    ensures
        forall|i: int|
            0 <= i < v.fixed_text(p).len() ==> is_digit_char(#[trigger] v.fixed_text(p)[i])
                || v.fixed_text(p)[i] == '-' || v.fixed_text(p)[i] == '.',
{
    let n = v.kept(p);
    let e = v.kept_scale(p);
    let sign = if v.negative {
        seq!['-']
    } else {
        Seq::<char>::empty()
    };
    let t = v.fixed_text(p);
    let whole = digits_of(n / pow10(e));
    lemma_digits_of_are_digits(n / pow10(e));
    if p == 0 {
        assert(t == sign + whole);
        assert forall|i: int| 0 <= i < t.len() implies is_digit_char(#[trigger] t[i]) || t[i] == '-'
            || t[i] == '.' by {
            if i >= sign.len() {
                assert(t[i] == whole[i - sign.len()]);
            }
        }
    } else {
        let frac = padded(n, e) + zeros((p - e) as nat);
        lemma_fraction_digits(n, e, (p - e) as nat);
        assert(t =~= sign + whole + seq!['.'] + frac);
        assert forall|i: int| 0 <= i < t.len() implies is_digit_char(#[trigger] t[i]) || t[i] == '-'
            || t[i] == '.' by {
            if i >= sign.len() + whole.len() + 1 {
                assert(t[i] == frac[i - (sign.len() + whole.len() + 1)]);
            } else if i >= sign.len() && i < sign.len() + whole.len() {
                assert(t[i] == whole[i - sign.len()]);
            }
        }
    }
}

pub proof fn lemma_pow10_positive(n: nat)
    ensures
        pow10(n) >= 1,
    decreases n,
{
    if n > 0 {
        lemma_pow10_positive((n - 1) as nat);
    }
}

proof fn lemma_pow10_monotonic(a: nat, b: nat)
    requires
        a <= b,
    ensures
        pow10(a) <= pow10(b),
    decreases b,
{
    if a < b {
        lemma_pow10_monotonic(a, (b - 1) as nat);
        lemma_pow10_positive((b - 1) as nat);
    }
}

/// From 39 digits on, a power of ten is more than twice any 128-bit value.
proof fn lemma_pow10_past_u128(k: nat)
    requires
        k >= 39,
    ensures
        pow10(k) > 2 * 0xffff_ffff_ffff_ffff_ffff_ffff_ffff_ffffnat,
{
    reveal_with_fuel(pow10, 40);
    assert(pow10(39) == 1_000_000_000_000_000_000_000_000_000_000_000_000_000nat);
    lemma_pow10_monotonic(39, k);
}

proof fn lemma_div_small(n: nat, d: nat)
    requires
        n < d,
    ensures
        n / d == 0,
        n % d == n,
{
    assert(n / d == 0 && n % d == n) by (nonlinear_arith)
        requires
            n < d,
    ;
}

fn pow10_exec(n: usize) -> (r: u128)
    requires
        n <= 38,
    ensures
        r == pow10(n as nat),
{
    let mut r: u128 = 1;
    let mut i: usize = 0;
    while i < n
        invariant
            i <= n <= 38,
            r == pow10(i as nat),
        decreases n - i,
    {
        proof {
            lemma_pow10_monotonic((i + 1) as nat, 38);
            reveal_with_fuel(pow10, 39);
        }
        r = r * 10;
        i = i + 1;
    }
    r
}

/// `n / 10^e`.
fn shift_down(n: u128, e: usize) -> (r: u128)
    ensures
        r == n as nat / pow10(e as nat),
{
    if e >= 39 {
        proof {
            lemma_pow10_past_u128(e as nat);
            lemma_div_small(n as nat, pow10(e as nat));
        }
        0
    } else {
        proof {
            lemma_pow10_positive(e as nat);
        }
        n / pow10_exec(e)
    }
}

/// `m / 10^k` rounded half to even, for `k >= 1`.
fn round_shift_exec(m: u128, k: usize) -> (r: u128)
    requires
        k >= 1,
    ensures
        r == round_shift(m as nat, k as nat),
{
    if k >= 39 {
        proof {
            lemma_pow10_past_u128(k as nat);
            lemma_div_small(m as nat, pow10(k as nat));
        }
        0
    } else {
        let d = pow10_exec(k);
        proof {
            lemma_pow10_monotonic(1, k as nat);
            lemma_pow10_monotonic(k as nat, 38);
            reveal_with_fuel(pow10, 39);
            assert(m / d <= m / 10) by (nonlinear_arith)
                requires
                    d >= 10,
            ;
        }
        let q = m / d;
        let r = m % d;
        if 2 * r > d || (2 * r == d && q % 2 == 1) {
            q + 1
        } else {
            q
        }
    }
}

fn digit_str(d: u128) -> (r: &'static str)
    requires
        d < 10,
    ensures
        r@ == seq![digit_char(d as nat)],
{
    proof {
        reveal_strlit("0");
        reveal_strlit("1");
        reveal_strlit("2");
        reveal_strlit("3");
        reveal_strlit("4");
        reveal_strlit("5");
        reveal_strlit("6");
        reveal_strlit("7");
        reveal_strlit("8");
        reveal_strlit("9");
    }
    if d == 0 {
        "0"
    } else if d == 1 {
        "1"
    } else if d == 2 {
        "2"
    } else if d == 3 {
        "3"
    } else if d == 4 {
        "4"
    } else if d == 5 {
        "5"
    } else if d == 6 {
        "6"
    } else if d == 7 {
        "7"
    } else if d == 8 {
        "8"
    } else {
        "9"
    }
}

fn write_digits(out: &mut String, n: u128)
    ensures
        final(out)@ == old(out)@ + digits_of(n as nat),
    decreases n,
{
    if n < 10 {
        out.append(digit_str(n));
    } else {
        write_digits(out, n / 10);
        out.append(digit_str(n % 10));
        assert(final(out)@ =~= old(out)@ + digits_of(n as nat));
    }
}

fn write_padded(out: &mut String, n: u128, w: usize)
    ensures
        final(out)@ == old(out)@ + padded(n as nat, w as nat),
{
    let ghost start = out@;
    let mut i: usize = 0;
    while i < w
        invariant
            i <= w,
            out@ == start + padded(n as nat, w as nat).subrange(0, i as int),
        decreases w - i,
    {
        let k = w - 1 - i;
        let d = shift_down(n, k) % 10;
        out.append(digit_str(d));
        i = i + 1;
        assert(out@ =~= start + padded(n as nat, w as nat).subrange(0, i as int));
    }
    assert(padded(n as nat, w as nat).subrange(0, w as int) =~= padded(n as nat, w as nat));
}

fn write_zeros(out: &mut String, c: usize)
    ensures
        final(out)@ == old(out)@ + zeros(c as nat),
{
    let ghost start = out@;
    let mut i: usize = 0;
    while i < c
        invariant
            i <= c,
            out@ == start + zeros(c as nat).subrange(0, i as int),
        decreases c - i,
    {
        out.append("0");
        proof {
            reveal_strlit("0");
        }
        i = i + 1;
        assert(out@ =~= start + zeros(c as nat).subrange(0, i as int));
    }
    assert(zeros(c as nat).subrange(0, c as int) =~= zeros(c as nat));
}

} // verus!
