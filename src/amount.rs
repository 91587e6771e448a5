//! Decimal amounts written in the Danish locale: `.` groups thousands and
//! `,` separates the fraction (`"1.234,56"`).
//!
//! An amount is held exactly, as an integer mantissa and a count of
//! fractional digits: `(m, s)` stands for `m / 10^s`.
use vstd::prelude::*;
use vstd::string::StrSliceExecFns;
use vstd::string::StringExecFns;

verus! {

/// Most digits that a decoded amount may carry, integer and fraction together.
pub const MAX_DIGITS: usize = 18;

/// Why a locale decimal could not be decoded.
#[derive(Debug, Clone, Copy, PartialEq, Eq, Structural)]
pub enum AmountError {
    /// The text is not a signed run of digits with at most one decimal comma.
    Malformed,
    /// The text holds more digits than an amount can carry.
    TooManyDigits,
}

/// An exact decimal number: `mantissa / 10^scale`.
#[derive(Debug, Clone, Copy)]
pub struct Decimal {
    pub mantissa: i128,
    pub scale: u32,
}

pub open spec fn pow10(n: nat) -> nat
    decreases n,
{
    if n == 0 {
        1
    } else {
        10 * pow10((n - 1) as nat)
    }
}

impl View for Decimal {
    type V = (int, nat);

    open spec fn view(&self) -> (int, nat) {
        (self.mantissa as int, self.scale as nat)
    }
}

/// Bound on what a decoded amount holds.
pub open spec fn is_small(v: (int, nat)) -> bool {
    v.1 <= MAX_DIGITS && -1_000_000_000_000_000_000 < v.0 < 1_000_000_000_000_000_000
}

/// Bound on what a sum of two decoded amounts holds.
pub open spec fn is_bounded(v: (int, nat)) -> bool {
    v.1 <= MAX_DIGITS && -10_000_000_000_000_000_000_000_000_000_000_000_000 <= v.0
        <= 10_000_000_000_000_000_000_000_000_000_000_000_000
}

// ---------------------------------------------------------------- decoding

pub open spec fn is_digit(c: char) -> bool {
    '0' <= c && c <= '9'
}

pub open spec fn digit_value(c: char) -> int {
    c as u32 as int - 48
}

pub open spec fn all_digits(s: Seq<char>) -> bool {
    forall|i: int| 0 <= i < s.len() ==> is_digit(#[trigger] s[i])
}

/// The number that a run of decimal digits spells.
pub open spec fn digits_value(s: Seq<char>) -> int
    decreases s.len(),
{
    if s.len() == 0 {
        0
    } else {
        digits_value(s.drop_last()) * 10 + digit_value(s.last())
    }
}

/// The characters that `str::trim` removes: Unicode's White_Space.
pub open spec fn is_space(c: char) -> bool {
    c == ' ' || ('\t' <= c && c <= '\r') || c == '\u{85}' || c == '\u{A0}' || c == '\u{1680}'
        || ('\u{2000}' <= c && c <= '\u{200A}') || c == '\u{2028}' || c == '\u{2029}' || c
        == '\u{202F}' || c == '\u{205F}' || c == '\u{3000}'
}

pub open spec fn trim_start(s: Seq<char>) -> Seq<char>
    decreases s.len(),
{
    if s.len() > 0 && is_space(s[0]) {
        trim_start(s.drop_first())
    } else {
        s
    }
}

pub open spec fn trim_end(s: Seq<char>) -> Seq<char>
    decreases s.len(),
{
    if s.len() > 0 && is_space(s.last()) {
        trim_end(s.drop_last())
    } else {
        s
    }
}

pub open spec fn trim(s: Seq<char>) -> Seq<char> {
    trim_end(trim_start(s))
}

/// `s` with every thousands separator taken out.
pub open spec fn strip_dots(s: Seq<char>) -> Seq<char>
    decreases s.len(),
{
    if s.len() == 0 {
        s
    } else if s.last() == '.' {
        strip_dots(s.drop_last())
    } else {
        strip_dots(s.drop_last()).push(s.last())
    }
}

/// Position of the first comma in `s`, or its length where it has none.
pub open spec fn comma_at(s: Seq<char>) -> nat
    decreases s.len(),
{
    if s.len() == 0 {
        0
    } else if s[0] == ',' {
        0
    } else {
        1 + comma_at(s.drop_first())
    }
}

/// Reads unsigned `b` as digits with at most one decimal comma: the digits
/// with the comma left out, and how many of them follow the comma.
pub open spec fn unsigned_digits(b: Seq<char>) -> Option<(Seq<char>, nat)> {
    let k = comma_at(b) as int;
    if k == b.len() {
        if b.len() > 0 && all_digits(b) {
            Some((b, 0))
        } else {
            None
        }
    } else {
        let ip = b.take(k);
        let fp = b.skip(k + 1);
        if b.len() > 1 && all_digits(ip) && all_digits(fp) {
            Some((ip + fp, fp.len()))
        } else {
            None
        }
    }
}

pub open spec fn has_sign(t: Seq<char>) -> bool {
    t.len() > 0 && (t[0] == '-' || t[0] == '+')
}

/// The locale reading of a decimal: surrounding white space trimmed, every
/// `.` removed, `,` taken as the decimal point, an optional leading sign.
pub open spec fn locale_decimal(s: Seq<char>) -> Result<(int, nat), AmountError> {
    let t = strip_dots(trim(s));
    let neg = t.len() > 0 && t[0] == '-';
    let b = if has_sign(t) {
        t.drop_first()
    } else {
        t
    };
    match unsigned_digits(b) {
        None => Err(AmountError::Malformed),
        Some((d, sc)) => if d.len() > MAX_DIGITS {
            Err(AmountError::TooManyDigits)
        } else if neg {
            Ok((-digits_value(d), sc))
        } else {
            Ok((digits_value(d), sc))
        },
    }
}

// ---------------------------------------------------------------- arithmetic

/// Exact sum, at the finer of the two scales.
pub open spec fn sum(a: (int, nat), b: (int, nat)) -> (int, nat) {
    let s = if a.1 >= b.1 {
        a.1
    } else {
        b.1
    };
    (a.0 * pow10((s - a.1) as nat) + b.0 * pow10((s - b.1) as nat), s)
}

pub open spec fn negation(a: (int, nat)) -> (int, nat) {
    (-a.0, a.1)
}

// ---------------------------------------------------------------- formatting

pub open spec fn digit_text(d: nat) -> Seq<char> {
    if d == 0 {
        "0"@
    } else if d == 1 {
        "1"@
    } else if d == 2 {
        "2"@
    } else if d == 3 {
        "3"@
    } else if d == 4 {
        "4"@
    } else if d == 5 {
        "5"@
    } else if d == 6 {
        "6"@
    } else if d == 7 {
        "7"@
    } else if d == 8 {
        "8"@
    } else {
        "9"@
    }
}

/// Decimal digits of `n`, without leading zeros.
pub open spec fn nat_text(n: nat) -> Seq<char>
    decreases n,
{
    if n < 10 {
        digit_text(n)
    } else {
        nat_text(n / 10) + digit_text(n % 10)
    }
}

/// The last `w` decimal digits of `n`, with leading zeros.
pub open spec fn fixed_text(n: nat, w: nat) -> Seq<char>
    decreases w,
{
    if w == 0 {
        Seq::empty()
    } else {
        fixed_text(n / 10, (w - 1) as nat) + digit_text(n % 10)
    }
}

/// `(u, s)` with trailing fractional zeros dropped.
pub open spec fn normalized(u: nat, s: nat) -> (nat, nat)
    decreases s,
{
    if s > 0 && u % 10 == 0 {
        normalized(u / 10, (s - 1) as nat)
    } else {
        (u, s)
    }
}

pub open spec fn abs(m: int) -> nat {
    if m < 0 {
        (-m) as nat
    } else {
        m as nat
    }
}

/// An amount written with `,` as the decimal point, in its shortest form:
/// no exponent, no thousands separators, no trailing fractional zeros and
/// no comma when it is whole (`-1000`, `1234,56`, `0,5`).
pub open spec fn amount_text(v: (int, nat)) -> Seq<char> {
    let (u, s) = normalized(abs(v.0), v.1);
    let sign = if v.0 < 0 {
        "-"@
    } else {
        Seq::empty()
    };
    let whole = nat_text(u / pow10(s));
    if s == 0 {
        sign + whole
    } else {
        sign + whole + ","@ + fixed_text(u % pow10(s), s)
    }
}

// ---------------------------------------------------------------- proofs

pub proof fn lemma_pow10_mono(a: nat, b: nat)
    requires
        a <= b,
    ensures
        pow10(a) <= pow10(b),
    decreases b,
{
    if a < b {
        lemma_pow10_mono(a, (b - 1) as nat);
    }
}

pub proof fn lemma_pow10_at_most_18(n: nat)
    requires
        n <= 18,
    ensures
        1 <= pow10(n) <= 1_000_000_000_000_000_000,
{
    lemma_pow10_mono(n, 18);
    lemma_pow10_mono(0, n);
    reveal_with_fuel(pow10, 19);
    assert(pow10(18) == 1_000_000_000_000_000_000);
}

proof fn lemma_digits_step(d: Seq<char>, x: int)
    requires
        0 <= x < d.len(),
    ensures
        digits_value(d.take(x + 1)) == digits_value(d.take(x)) * 10 + digit_value(d[x]),
{
    assert(d.take(x + 1).drop_last() =~= d.take(x));
}

// ---------------------------------------------------------------- executable

fn is_space_char(c: char) -> (r: bool)
    ensures
        r == is_space(c),
{
    c == ' ' || ('\t' <= c && c <= '\r') || c == '\u{85}' || c == '\u{A0}' || c == '\u{1680}'
        || ('\u{2000}' <= c && c <= '\u{200A}') || c == '\u{2028}' || c == '\u{2029}' || c
        == '\u{202F}' || c == '\u{205F}' || c == '\u{3000}'
}

/// Character positions of `s` between which `trim` leaves it.
fn trim_bounds(s: &str) -> (r: (usize, usize))
    ensures
        r.0 <= r.1 <= s@.len(),
        trim(s@) == s@.subrange(r.0 as int, r.1 as int),
{
    let n = s.unicode_len();
    let mut lo: usize = 0;
    assert(s@.subrange(0, n as int) =~= s@);
    while lo < n && is_space_char(s.get_char(lo))
        invariant
            lo <= n,
            n == s@.len(),
            trim_start(s@) == trim_start(s@.subrange(lo as int, n as int)),
        decreases n - lo,
    {
        assert(s@.subrange(lo as int, n as int).drop_first() =~= s@.subrange(lo + 1, n as int));
        lo += 1;
    }
    assert(s@.subrange(0, n as int) =~= s@);
    let ghost t0 = s@.subrange(lo as int, n as int);
    assert(trim_start(t0) == t0) by {
        if t0.len() > 0 {
            assert(t0[0] == s@[lo as int]);
        }
    }
    let mut hi: usize = n;
    while hi > lo && is_space_char(s.get_char(hi - 1))
        invariant
            lo <= hi <= n,
            n == s@.len(),
            t0 == s@.subrange(lo as int, n as int),
            trim_end(t0) == trim_end(s@.subrange(lo as int, hi as int)),
        decreases hi,
    {
        assert(s@.subrange(lo as int, hi as int).drop_last() =~= s@.subrange(
            lo as int,
            hi - 1,
        ));
        hi -= 1;
    }
    let ghost t1 = s@.subrange(lo as int, hi as int);
    assert(trim_end(t1) == t1) by {
        if t1.len() > 0 {
            assert(t1.last() == s@[hi - 1]);
        }
    }
    (lo, hi)
}

/// Decodes a decimal written in the Danish locale (`"-1.234,56"`).
pub fn decode_locale_decimal(s: &str) -> (r: Result<Decimal, AmountError>)
    ensures
        match r {
            Ok(d) => locale_decimal(s@) == Ok::<(int, nat), AmountError>(d@) && is_small(d@),
            Err(e) => locale_decimal(s@) == Err::<(int, nat), AmountError>(e),
        },
{
    let (lo, hi) = trim_bounds(s);
    let mut t: Vec<char> = Vec::new();
    let mut i: usize = lo;
    while i < hi
        invariant
            lo <= i <= hi <= s@.len(),
            t@ == strip_dots(s@.subrange(lo as int, i as int)),
        decreases hi - i,
    {
        let c = s.get_char(i);
        assert(s@.subrange(lo as int, i + 1).drop_last() =~= s@.subrange(lo as int, i as int));
        if c != '.' {
            t.push(c);
        }
        i += 1;
    }
    let ghost tv = t@;
    assert(tv == strip_dots(trim(s@)));
    let len = t.len();
    let neg = len > 0 && t[0] == '-';
    let start: usize = if len > 0 && (t[0] == '-' || t[0] == '+') {
        1
    } else {
        0
    };
    let ghost b = if has_sign(tv) {
        tv.drop_first()
    } else {
        tv
    };
    assert(b =~= tv.subrange(start as int, len as int));
    let mut k: usize = start;
    while k < len && t[k] != ','
        invariant
            start <= k <= len,
            len == tv.len(),
            tv == t@,
            b == tv.subrange(start as int, len as int),
            comma_at(b) == (k - start) + comma_at(tv.subrange(k as int, len as int)),
        decreases len - k,
    {
        assert(tv.subrange(k as int, len as int).drop_first() =~= tv.subrange(k + 1, len as int));
        k += 1;
    }
    assert(comma_at(tv.subrange(k as int, len as int)) == 0) by {
        if k < len {
            assert(tv.subrange(k as int, len as int)[0] == tv[k as int]);
        }
    }
    let has_comma = k < len;
    let blen = len - start;
    if blen == 0 || (has_comma && blen == 1) {
        return Err(AmountError::Malformed);
    }
    let mut j: usize = start;
    while j < len
        invariant
            start <= j <= len,
            len == tv.len(),
            tv == t@,
            tv == strip_dots(trim(s@)),
            neg == (tv.len() > 0 && tv[0] == '-'),
            b == (if has_sign(tv) {
                tv.drop_first()
            } else {
                tv
            }),
            forall|x: int| start <= x < j && x != k ==> is_digit(#[trigger] tv[x]),
            start <= k <= len,
            has_comma == (k < len),
            b == tv.subrange(start as int, len as int),
            comma_at(b) == k - start,
            blen == len - start,
        decreases len - j,
    {
        if j != k && !('0' <= t[j] && t[j] <= '9') {
            assert(!is_digit(tv[j as int]));
            let ghost kk = k - start;
            if has_comma {
                if j < k {
                    assert(b.take(kk)[j - start] == tv[j as int]);
                    assert(!is_digit(b.take(kk)[j - start]));
                } else {
                    assert(b.skip(kk + 1)[j - k - 1] == tv[j as int]);
                    assert(!is_digit(b.skip(kk + 1)[j - k - 1]));
                }
            } else {
                assert(b[j - start] == tv[j as int]);
                assert(!is_digit(b[j - start]));
            }
            assert(unsigned_digits(b) is None);
            return Err(AmountError::Malformed);
        }
        j += 1;
    }
    let ghost kk = (k - start) as int;
    let ghost d = if has_comma {
        b.take(kk) + b.skip(kk + 1)
    } else {
        b
    };
    assert(unsigned_digits(b) == Some((d, if has_comma {
        (blen - kk - 1) as nat
    } else {
        0nat
    }))) by {
        if has_comma {
            assert(all_digits(b.take(kk)));
            assert(all_digits(b.skip(kk + 1)));
        } else {
            assert(all_digits(b));
        }
    }
    let dlen: usize = if has_comma {
        blen - 1
    } else {
        blen
    };
    assert(d.len() == dlen);
    if dlen > MAX_DIGITS {
        return Err(AmountError::TooManyDigits);
    }
    let mut m: u64 = 0;
    let mut x: usize = 0;
    while x < dlen
        invariant
            x <= dlen <= MAX_DIGITS,
            d.len() == dlen,
            tv == t@,
            tv == strip_dots(trim(s@)),
            neg == (tv.len() > 0 && tv[0] == '-'),
            b == (if has_sign(tv) {
                tv.drop_first()
            } else {
                tv
            }),
            unsigned_digits(b) == Some((d, if has_comma {
                (blen - kk - 1) as nat
            } else {
                0nat
            })),
            len == tv.len(),
            b == tv.subrange(start as int, len as int),
            d == (if has_comma {
                b.take(kk) + b.skip(kk + 1)
            } else {
                b
            }),
            has_comma ==> 0 <= kk < b.len(),
            kk == k - start,
            dlen == (if has_comma {
                blen - 1
            } else {
                blen as int
            }),
            blen == len - start,
            all_digits(d),
            m == digits_value(d.take(x as int)),
            m < pow10(x as nat),
        decreases dlen - x,
    {
        let pos: usize = if !has_comma || start + x < k {
            start + x
        } else {
            start + x + 1
        };
        let c = t[pos];
        assert(d[x as int] == c);
        assert(is_digit(d[x as int]));
        proof {
            lemma_digits_step(d, x as int);
            lemma_pow10_at_most_18((x + 1) as nat);
        }
        m = m * 10 + (c as u32 - 48u32) as u64;
        x += 1;
    }
    assert(d.take(dlen as int) =~= d);
    let scale: u32 = if has_comma {
        (blen - (k - start) - 1) as u32
    } else {
        0
    };
    proof {
        lemma_pow10_at_most_18(dlen as nat);
    }
    let mantissa: i128 = if neg {
        -(m as i128)
    } else {
        m as i128
    };
    Ok(Decimal { mantissa, scale })
}

proof fn lemma_product_bound(x: int, y: int)
    requires
        -1_000_000_000_000_000_000 < x < 1_000_000_000_000_000_000,
        1 <= y <= 1_000_000_000_000_000_000,
    ensures
        -1_000_000_000_000_000_000_000_000_000_000_000_000 < x * y
            < 1_000_000_000_000_000_000_000_000_000_000_000_000,
{
    assert(-1_000_000_000_000_000_000_000_000_000_000_000_000 < x * y
        < 1_000_000_000_000_000_000_000_000_000_000_000_000) by (nonlinear_arith)
        requires
            -1_000_000_000_000_000_000 < x < 1_000_000_000_000_000_000,
            1 <= y <= 1_000_000_000_000_000_000,
    ;
}

fn pow10_exec(n: u32) -> (r: u64)
    requires
        n <= MAX_DIGITS,
    ensures
        r == pow10(n as nat),
{
    let mut p: u64 = 1;
    let mut i: u32 = 0;
    while i < n
        invariant
            i <= n <= MAX_DIGITS,
            p == pow10(i as nat),
        decreases n - i,
    {
        proof {
            lemma_pow10_at_most_18((i + 1) as nat);
        }
        p = p * 10;
        i += 1;
    }
    p
}

fn digit_str(d: u64) -> (r: &'static str)
    requires
        d < 10,
    ensures
        r@ == digit_text(d as nat),
{
    if d == 0 {
        "0"
    } else if d == 1 {
        "1"
    } else if d == 2 {
        "2"
    } else if d == 3 {
        "3"
    } else if d == 4 {
        "4"
    } else if d == 5 {
        "5"
    } else if d == 6 {
        "6"
    } else if d == 7 {
        "7"
    } else if d == 8 {
        "8"
    } else {
        "9"
    }
}

/// Appends the decimal digits of `n`.
pub fn write_nat(out: &mut String, n: u128)
    ensures
        final(out)@ == old(out)@ + nat_text(n as nat),
    decreases n,
{
    if n >= 10 {
        write_nat(out, n / 10);
    }
    out.append(digit_str((n % 10) as u64));
    assert(final(out)@ =~= old(out)@ + nat_text(n as nat));
}

/// Appends the last `w` decimal digits of `n`, zeros in front.
fn write_fixed(out: &mut String, n: u128, w: u32)
    ensures
        final(out)@ == old(out)@ + fixed_text(n as nat, w as nat),
    decreases w,
{
    if w > 0 {
        write_fixed(out, n / 10, w - 1);
        out.append(digit_str((n % 10) as u64));
    }
    assert(final(out)@ =~= old(out)@ + fixed_text(n as nat, w as nat));
}

impl Decimal {
    /// The exact sum of two decoded amounts.
    pub fn add(&self, other: &Decimal) -> (r: Decimal)
        requires
            is_small(self@),
            is_small(other@),
        ensures
            r@ == sum(self@, other@),
            is_bounded(r@),
    {
        let s = if self.scale >= other.scale {
            self.scale
        } else {
            other.scale
        };
        let pa = pow10_exec(s - self.scale);
        let pb = pow10_exec(s - other.scale);
        proof {
            lemma_pow10_at_most_18((s - self.scale) as nat);
            lemma_pow10_at_most_18((s - other.scale) as nat);
            lemma_product_bound(self.mantissa as int, pa as int);
            lemma_product_bound(other.mantissa as int, pb as int);
        }
        let a = self.mantissa * (pa as i128);
        let b = other.mantissa * (pb as i128);
        Decimal { mantissa: a + b, scale: s }
    }

    /// The amount with its sign turned.
    pub fn negate(&self) -> (r: Decimal)
        requires
            is_small(self@),
        ensures
            r@ == negation(self@),
            is_small(r@),
    {
        Decimal { mantissa: -self.mantissa, scale: self.scale }
    }

    /// Whether the amount is above zero.
    pub fn is_positive(&self) -> (r: bool)
        ensures
            r == (self@.0 > 0),
    {
        self.mantissa > 0
    }

    /// The amount in the Danish locale, in its shortest exact form.
    pub fn to_locale_string(&self) -> (r: String)
        requires
            is_bounded(self@),
        ensures
            r@ == amount_text(self@),
    {
        let neg = self.mantissa < 0;
        let mut u: u128 = if neg {
            (-self.mantissa) as u128
        } else {
            self.mantissa as u128
        };
        let mut s: u32 = self.scale;
        while s > 0 && u % 10 == 0
            invariant
                s <= MAX_DIGITS,
                normalized(u as nat, s as nat) == normalized(abs(self@.0), self@.1),
            decreases s,
        {
            u = u / 10;
            s -= 1;
        }
        assert(normalized(u as nat, s as nat) == (u as nat, s as nat));
        let p = pow10_exec(s) as u128;
        proof {
            lemma_pow10_at_most_18(s as nat);
        }
        let mut out = String::new();
        if neg {
            out.append("-");
        }
        write_nat(&mut out, u / p);
        if s > 0 {
            out.append(",");
            write_fixed(&mut out, u % p, s);
        }
        assert(out@ =~= amount_text(self@));
        out
    }
}

} // verus!
