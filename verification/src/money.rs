//! Fixed-point arithmetic for money, prices and probabilities.
//!
//! Every monetary amount, price and probability in this crate is an `i64`
//! counting micro-units: `SCALE` micro-units make one dollar (or a
//! probability of 1). This keeps the ledger arithmetic exact.
//!
//! The module also parses decimal strings (the quote service returns prices
//! as strings such as `"0.65"`) and formats amounts back with two decimals,
//! and proves that the two directions round-trip.

use vstd::prelude::*;
use vstd::string::StringSliceAdditionalSpecFns;

verus! {

/// Number of micro-units in one whole unit (one dollar, or probability 1).
pub const SCALE: i64 = 1_000_000;

/// Largest magnitude this crate stores in a single amount: one billion
/// dollars in micro-units. Keeps every sum and product well inside `i64`.
pub const MONEY_LIMIT: i64 = 1_000_000_000_000_000;

/// Truncating division of `n` by positive `d` (rounds toward zero, as Rust's
/// integer division does).
pub open spec fn tdiv(n: int, d: int) -> int
    recommends
        d > 0,
{
    if n >= 0 {
        n / d
    } else {
        -((-n) / d)
    }
}

/// `a * b / d` rounded down, for non-negative operands.
pub fn mul_div_floor(a: i64, b: i64, d: i64) -> (r: i64)
    requires
        0 <= a,
        0 <= b,
        0 < d,
        a * b / (d as int) <= i64::MAX,
    ensures
        r == a * b / (d as int),
{
    proof {
        assert(a * b <= i64::MAX * i64::MAX) by (nonlinear_arith)
            requires
                0 <= a <= i64::MAX,
                0 <= b <= i64::MAX,
        ;
    }
    let wide: i128 = (a as i128) * (b as i128);
    let q: i128 = wide / (d as i128);
    proof {
        assert(wide == a * b);
        assert(0 <= q <= i64::MAX);
    }
    q as i64
}

/// `a * b / d` rounded toward zero, for signed `a`.
pub fn mul_div_trunc(a: i64, b: i64, d: i64) -> (r: i64)
    requires
        0 <= b,
        0 < d,
        -MONEY_LIMIT <= a <= MONEY_LIMIT,
        tdiv(a * b, d as int) <= i64::MAX,
        -i64::MAX <= tdiv(a * b, d as int),
    ensures
        r == tdiv(a * b, d as int),
{
    if a >= 0 {
        mul_div_floor(a, b, d)
    } else {
        proof {
            assert((-a) * b == -(a * b)) by (nonlinear_arith);
        }
        let m = mul_div_floor(-a, b, d);
        -m
    }
}

/// For `0 <= a <= d`, the floored product-quotient `a * s / d` stays
/// between zero and `s`.
pub proof fn lemma_mul_div_le(a: int, d: int, s: int)
    requires
        0 <= a <= d,
        0 < d,
        0 <= s,
    ensures
        0 <= a * s / d <= s,
{
    assert(0 <= a * s / d <= s) by (nonlinear_arith)
        requires
            0 <= a <= d,
            0 < d,
            0 <= s,
    ;
}

/// Compare two products exactly, without overflow.
pub fn gt_product(a: i64, b: i64, c: i64, d: i64) -> (r: bool)
    ensures
        r == (a * b > c * d),
{
    proof {
        lemma_i64_product_fits(a as int, b as int);
        lemma_i64_product_fits(c as int, d as int);
    }
    (a as i128) * (b as i128) > (c as i128) * (d as i128)
}

/// Compare two products exactly, without overflow.
pub fn ge_product(a: i64, b: i64, c: i64, d: i64) -> (r: bool)
    ensures
        r == (a * b >= c * d),
{
    proof {
        lemma_i64_product_fits(a as int, b as int);
        lemma_i64_product_fits(c as int, d as int);
    }
    (a as i128) * (b as i128) >= (c as i128) * (d as i128)
}

/// Any product of two 64-bit values fits a 128-bit value.
pub proof fn lemma_i64_product_fits(a: int, b: int)
    requires
        i64::MIN <= a <= i64::MAX,
        i64::MIN <= b <= i64::MAX,
    ensures
        i128::MIN <= a * b <= i128::MAX,
{
    assert(i128::MIN <= a * b <= i128::MAX) by (nonlinear_arith)
        requires
            -0x8000000000000000 <= a <= 0x7fffffffffffffff,
            -0x8000000000000000 <= b <= 0x7fffffffffffffff,
    ;
}

/// Two to the `n`.
pub open spec fn pow2(n: nat) -> int
    decreases n,
{
    if n == 0 {
        1
    } else {
        2 * pow2((n - 1) as nat)
    }
}

pub proof fn lemma_pow2_bound(n: nat)
    requires
        n <= 32,
    ensures
        1 <= pow2(n) <= 0x1_0000_0000,
    decreases n,
{
    if n > 0 {
        lemma_pow2_bound((n - 1) as nat);
        reveal_with_fuel(pow2, 33);
        assert(pow2(32) == 0x1_0000_0000) by {
            reveal_with_fuel(pow2, 33);
        }
        if pow2(n) > 0x1_0000_0000 {
            lemma_pow2_mono(n, 32);
        }
    }
}

pub proof fn lemma_pow2_mono(a: nat, b: nat)
    requires
        a <= b,
    ensures
        pow2(a) <= pow2(b),
    decreases b,
{
    if a < b {
        lemma_pow2_mono(a, (b - 1) as nat);
        lemma_pow2_pos((b - 1) as nat);
    }
}

pub proof fn lemma_pow2_pos(n: nat)
    ensures
        pow2(n) >= 1,
    decreases n,
{
    if n > 0 {
        lemma_pow2_pos((n - 1) as nat);
    }
}

// ─── Decimal digits ───

/// Whether a byte is an ASCII decimal digit.
pub open spec fn is_digit(b: u8) -> bool {
    48 <= b <= 57
}

/// Whether every byte of `s` is an ASCII decimal digit.
pub open spec fn all_digits(s: Seq<u8>) -> bool {
    forall|i: int| 0 <= i < s.len() ==> is_digit(#[trigger] s[i])
}

/// Value of a sequence of ASCII digits read as a base-10 numeral.
pub open spec fn digits_val(s: Seq<u8>) -> int
    decreases s.len(),
{
    if s.len() == 0 {
        0
    } else {
        digits_val(s.drop_last()) * 10 + (s.last() - 48)
    }
}

/// Ten to the `n`.
pub open spec fn pow10(n: nat) -> int
    decreases n,
{
    if n == 0 {
        1
    } else {
        10 * pow10((n - 1) as nat)
    }
}

/// The decimal digits of `n`, most significant first.
pub open spec fn dec_digits(n: nat) -> Seq<u8>
    decreases n,
{
    if n < 10 {
        seq![(48 + n) as u8]
    } else {
        dec_digits(n / 10).push((48 + n % 10) as u8)
    }
}

pub proof fn lemma_digits_val_bound(s: Seq<u8>)
    requires
        all_digits(s),
    ensures
        0 <= digits_val(s) < pow10(s.len()),
    decreases s.len(),
{
    if s.len() > 0 {
        lemma_digits_val_bound(s.drop_last());
    }
}

pub proof fn lemma_dec_digits_val(n: nat)
    ensures
        digits_val(dec_digits(n)) == n,
        all_digits(dec_digits(n)),
        1 <= dec_digits(n).len(),
    decreases n,
{
    if n < 10 {
        let s = dec_digits(n);
        assert(s.last() == (48 + n) as u8);
        assert(s.drop_last() =~= Seq::<u8>::empty());
        assert(digits_val(s) == digits_val(s.drop_last()) * 10 + (s.last() - 48));
    } else {
        lemma_dec_digits_val(n / 10);
        let s = dec_digits(n);
        assert(s.drop_last() =~= dec_digits(n / 10));
    }
}

/// The length of `dec_digits(n)` grows with `n`: below `pow10(k)` it takes at
/// most `k` digits.
pub proof fn lemma_dec_digits_len(n: nat, k: nat)
    requires
        n < pow10(k),
        k >= 1,
    ensures
        dec_digits(n).len() <= k,
    decreases n,
{
    if n >= 10 {
        assert(pow10(k) == 10 * pow10((k - 1) as nat));
        lemma_dec_digits_len(n / 10, (k - 1) as nat);
    }
}

// ─── Parsing decimal strings to micro-units ───

/// Index of the first `.` in `s` at or after `from`; `s.len()` if none.
pub open spec fn first_dot(s: Seq<u8>, from: int) -> int
    recommends
        0 <= from <= s.len(),
    decreases s.len() - from,
{
    if from < 0 || from >= s.len() {
        s.len() as int
    } else if s[from] == 46 {
        from
    } else {
        first_dot(s, from + 1)
    }
}

/// The value, in micro-units, of a decimal numeral `s`: digits, optionally
/// followed by a dot and one to six fraction digits. `None` if `s` is not of
/// that shape, has no integer digits, or has more than twelve of them.
pub open spec fn decimal_micros(s: Seq<u8>) -> Option<int> {
    let d = first_dot(s, 0);
    let ip = s.subrange(0, d);
    if !(1 <= ip.len() <= 12 && all_digits(ip)) {
        None
    } else if d == s.len() {
        Some(digits_val(ip) * (SCALE as int))
    } else {
        let fp = s.subrange(d + 1, s.len() as int);
        if 1 <= fp.len() <= 6 && all_digits(fp) {
            Some(digits_val(ip) * (SCALE as int) + digits_val(fp) * pow10((6 - fp.len()) as nat))
        } else {
            None
        }
    }
}

proof fn lemma_first_dot_in_range(s: Seq<u8>, from: int)
    requires
        0 <= from <= s.len(),
    ensures
        from <= first_dot(s, from) <= s.len(),
        first_dot(s, from) < s.len() ==> s[first_dot(s, from)] == 46,
        forall|j: int| from <= j < first_dot(s, from) ==> s[j] != 46,
    decreases s.len() - from,
{
    if from < s.len() && s[from] != 46 {
        lemma_first_dot_in_range(s, from + 1);
    }
}

/// Parse a decimal numeral into micro-units. Returns exactly what
/// `decimal_micros` gives on the bytes.
pub fn parse_decimal(s: &[u8]) -> (r: Option<i64>)
    ensures
        match r {
            Some(v) => decimal_micros(s@) == Some(v as int),
            None => decimal_micros(s@) is None,
        },
{
    proof {
        lemma_first_dot_in_range(s@, 0);
    }
    let ghost d = first_dot(s@, 0);
    let len = s.len();
    let mut i: usize = 0;
    let mut acc: i64 = 0;
    // Integer part: scan digits up to the first dot or the end.
    while i < len && 48 <= s[i] && s[i] <= 57
        invariant
            0 <= i <= len,
            len == s@.len(),
            d == first_dot(s@, 0),
            0 <= d <= len,
            forall|j: int| 0 <= j < i ==> is_digit(#[trigger] s@[j]),
            i <= d,
            acc == digits_val(s@.subrange(0, i as int)),
            0 <= acc < pow10(i as nat),
            i <= 12,
        decreases len - i,
    {
        if i == 12 {
            // Thirteenth digit: the integer part is too long whatever follows.
            proof {
                lemma_first_dot_in_range(s@, 0);
                let ip = s@.subrange(0, d);
                assert(d >= 13) by {
                    if d <= 12 {
                        assert(is_digit(s@[d]));
                        assert(s@[d] == 46);
                    }
                }
                assert(ip.len() >= 13);
            }
            return None;
        }
        let ghost pre = s@.subrange(0, i as int);
        proof {
            assert(s@.subrange(0, i + 1).drop_last() =~= pre);
            lemma_digits_val_bound(s@.subrange(0, i + 1));
            lemma_pow10_vals();
            lemma_pow10_mono(i as nat, 12);
        }
        acc = acc * 10 + (s[i] - 48) as i64;
        i += 1;
        proof {
            lemma_first_dot_in_range(s@, 0);
            assert(i as int <= d) by {
                if d < i {
                    assert(is_digit(s@[d]));
                    assert(s@[d] == 46);
                }
            }
        }
    }
    let ghost ip = s@.subrange(0, d);
    if i == 0 {
        // No integer digits at all: either the input is empty or it opens
        // with a byte that is no digit, so the integer part cannot be one.
        proof {
            if 1 <= ip.len() && all_digits(ip) {
                assert(is_digit(ip[0]));
                assert(ip[0] == s@[0]);
                assert(len > 0 && 48 <= s@[0] <= 57);
            }
        }
        return None;
    }
    if i == len {
        // Pure integer numeral.
        proof {
            lemma_first_dot_in_range(s@, 0);
            assert(d == len) by {
                if d < len {
                    assert(is_digit(s@[d]));
                    assert(s@[d] == 46);
                }
            }
            assert(ip =~= s@.subrange(0, i as int));
            assert(1 <= ip.len() <= 12 && all_digits(ip));
            lemma_pow10_vals();
            lemma_pow10_mono(i as nat, 12);
        }
        return Some(acc * SCALE);
    }
    if s[i] != 46 {
        // A non-digit, non-dot byte sits inside the integer part.
        proof {
            assert(i < d);
            assert(ip[i as int] == s@[i as int]);
            assert(!is_digit(ip[i as int]));
        }
        return None;
    }
    // Fraction part after the dot.
    proof {
        lemma_first_dot_in_range(s@, 0);
        assert(d == i) by {
            assert(forall|j: int| 0 <= j < i ==> s@[j] != 46);
        }
        assert(ip =~= s@.subrange(0, i as int));
        assert(1 <= ip.len() <= 12 && all_digits(ip));
    }
    let dot = i;
    let mut j = i + 1;
    let mut frac: i64 = 0;
    while j < len && 48 <= s[j] && s[j] <= 57
        invariant
            dot + 1 <= j <= len,
            dot == d,
            len == s@.len(),
            d == first_dot(s@, 0),
            forall|k: int| dot + 1 <= k < j ==> is_digit(#[trigger] s@[k]),
            frac == digits_val(s@.subrange(dot + 1, j as int)),
            0 <= frac < pow10((j - dot - 1) as nat),
            j - dot - 1 <= 6,
        decreases len - j,
    {
        if j - dot - 1 == 6 {
            // Seventh fraction digit: too many whatever follows.
            proof {
                lemma_first_dot_in_range(s@, 0);
                let fp = s@.subrange(d + 1, len as int);
                assert(fp.len() >= 7);
            }
            return None;
        }
        let ghost pre = s@.subrange(dot + 1, j as int);
        proof {
            assert(s@.subrange(dot + 1, j + 1).drop_last() =~= pre);
            lemma_digits_val_bound(s@.subrange(dot + 1, j + 1));
            lemma_pow10_vals();
            lemma_pow10_mono((j - dot - 1) as nat, 6);
        }
        frac = frac * 10 + (s[j] - 48) as i64;
        j += 1;
    }
    let ghost fp = s@.subrange(d + 1, len as int);
    if j < len {
        // Non-digit byte inside the fraction part.
        proof {
            assert(fp[j - d - 1] == s@[j as int]);
            assert(!is_digit(fp[j - d - 1]));
        }
        return None;
    }
    let nfrac = j - dot - 1;
    if nfrac == 0 {
        proof {
            assert(fp.len() == 0);
        }
        return None;
    }
    proof {
        assert(fp =~= s@.subrange(dot + 1, j as int));
        assert(1 <= fp.len() <= 6 && all_digits(fp));
    }
    let mut mult: i64 = 1;
    let mut k = nfrac;
    while k < 6
        invariant
            nfrac <= k <= 6,
            mult == pow10((k - nfrac) as nat),
            0 < mult <= 1_000_000,
        decreases 6 - k,
    {
        proof {
            lemma_pow10_vals();
            lemma_pow10_mono((k + 1 - nfrac) as nat, 6);
        }
        mult = mult * 10;
        k += 1;
    }
    proof {
        lemma_digits_val_bound(fp);
        assert(frac * mult < pow10(fp.len()) * pow10((6 - fp.len()) as nat)) by (nonlinear_arith)
            requires
                0 <= frac < pow10(fp.len()),
                0 < mult == pow10((6 - fp.len()) as nat),
        ;
        assert(frac * mult >= 0) by (nonlinear_arith)
            requires
                frac >= 0,
                mult > 0,
        ;
        lemma_pow10_adds(fp.len(), (6 - fp.len()) as nat);
        lemma_pow10_vals();
        lemma_pow10_mono(i as nat, 12);
    }
    Some(acc * SCALE + frac * mult)
}

pub proof fn lemma_pow10_adds(a: nat, b: nat)
    ensures
        pow10(a) * pow10(b) == pow10(a + b),
        pow10(a) >= 1,
    decreases a,
{
    if a == 0 {
        lemma_pow10_pos(b);
    } else {
        lemma_pow10_adds((a - 1) as nat, b);
        assert(pow10(a) * pow10(b) == 10 * (pow10((a - 1) as nat) * pow10(b)))
            by (nonlinear_arith)
            requires
                pow10(a) == 10 * pow10((a - 1) as nat),
        ;
    }
}

pub proof fn lemma_pow10_pos(n: nat)
    ensures
        pow10(n) >= 1,
    decreases n,
{
    if n > 0 {
        lemma_pow10_pos((n - 1) as nat);
    }
}

/// The handful of powers of ten the crate computes with.
pub proof fn lemma_pow10_vals()
    ensures
        pow10(4) == 10_000,
        pow10(6) == 1_000_000,
        pow10(11) == 100_000_000_000,
        pow10(12) == 1_000_000_000_000,
{
    reveal_with_fuel(pow10, 13);
}

pub proof fn lemma_pow10_mono(a: nat, b: nat)
    requires
        a <= b,
    ensures
        pow10(a) <= pow10(b),
    decreases b,
{
    if a < b {
        lemma_pow10_mono(a, (b - 1) as nat);
        lemma_pow10_pos((b - 1) as nat);
    }
}

// ─── Formatting micro-units with two decimals ───

/// The canonical two-decimal rendering of `p` micro-units, rounding half up:
/// the digits of the dollar part, a dot, and exactly two fraction digits.
pub open spec fn format_2dp_spec(p: int) -> Seq<u8>
    recommends
        p >= 0,
{
    let n = (p + 5000) / 10000;
    dec_digits((n / 100) as nat) + seq![46u8] + seq![
        (48 + (n % 100) / 10) as u8,
        (48 + n % 10) as u8,
    ]
}

/// Append the decimal digits of `n` to `out`.
pub fn push_dec_digits(n: u64, out: &mut Vec<u8>)
    ensures
        final(out)@ == old(out)@ + dec_digits(n as nat),
    decreases n,
{
    if n < 10 {
        out.push((48 + n) as u8);
        proof {
            assert(final(out)@ =~= old(out)@ + dec_digits(n as nat));
        }
    } else {
        push_dec_digits(n / 10, out);
        out.push((48 + (n % 10)) as u8);
        proof {
            assert(final(out)@ =~= old(out)@ + dec_digits(n as nat));
        }
    }
}

/// Render `p` micro-units with two decimals, rounding half up, as ASCII bytes.
pub fn format_2dp(p: i64) -> (r: Vec<u8>)
    requires
        0 <= p <= MONEY_LIMIT,
    ensures
        r@ == format_2dp_spec(p as int),
{
    let n: i64 = (p + 5000) / 10000;
    let mut out: Vec<u8> = Vec::new();
    push_dec_digits((n / 100) as u64, &mut out);
    out.push(46);
    out.push((48 + (n % 100) / 10) as u8);
    out.push((48 + n % 10) as u8);
    proof {
        assert(out@ =~= format_2dp_spec(p as int));
    }
    out
}

/// Relies on `String::from_utf8`: a vector of ASCII bytes is valid UTF-8
/// and decodes to the string whose characters are exactly those bytes.
#[verifier::external_body]
pub fn ascii_bytes_to_string(v: Vec<u8>) -> (r: String)
    requires
        forall|i: int| 0 <= i < v@.len() ==> (#[trigger] v@[i]) < 128,
    ensures
        r@.len() == v@.len(),
        forall|i: int| 0 <= i < v@.len() ==> r@[i] == (#[trigger] v@[i]) as char,
{
    String::from_utf8(v).unwrap_or_default()
}

/// Parsing the two-decimal rendering of an amount that is exact at two
/// decimals gives the amount back.
pub proof fn lemma_format_parse_roundtrip(p: int)
    requires
        0 <= p <= MONEY_LIMIT,
        p % 10000 == 0,
    ensures
        decimal_micros(format_2dp_spec(p)) == Some(p),
{
    lemma_pow10_vals();
    let n = (p + 5000) / 10000;
    assert(n == p / 10000);
    let hund = (n / 100) as nat;
    let ds = dec_digits(hund);
    lemma_dec_digits_val(hund);
    assert(n <= 100_000_000_000) by (nonlinear_arith)
        requires
            n == p / 10000,
            0 <= p <= 1_000_000_000_000_000,
    ;
    assert(hund <= 1_000_000_000) by (nonlinear_arith)
        requires
            hund == n / 100,
            0 <= n <= 100_000_000_000,
    ;
    assert(hund < pow10(11));
    lemma_dec_digits_len(hund, 11);
    let s = format_2dp_spec(p);
    assert(s.len() == ds.len() + 3);
    // The first dot of the rendering is right after the digits.
    assert(first_dot(s, 0) == ds.len()) by {
        lemma_first_dot_position(s, ds);
    }
    let d = first_dot(s, 0);
    let ip = s.subrange(0, d);
    assert(ip =~= ds);
    let fp = s.subrange(d + 1, s.len() as int);
    assert(fp =~= seq![(48 + (n % 100) / 10) as u8, (48 + n % 10) as u8]);
    assert(digits_val(fp) == ((n % 100) / 10) * 10 + n % 10) by {
        let lo = fp.drop_last();
        assert(lo =~= seq![(48 + (n % 100) / 10) as u8]);
        assert(lo.drop_last() =~= Seq::<u8>::empty());
        assert(0 <= n % 10 < 10);
        assert(0 <= (n % 100) / 10 < 10);
        assert(((48 + n % 10) as u8) as int == 48 + n % 10);
        assert(((48 + (n % 100) / 10) as u8) as int == 48 + (n % 100) / 10);
        assert(fp.last() == (48 + n % 10) as u8);
        assert(lo.last() == (48 + (n % 100) / 10) as u8);
        assert(digits_val(lo.drop_last()) == 0);
        assert(digits_val(lo) == digits_val(lo.drop_last()) * 10 + (lo.last() - 48));
        assert(digits_val(lo) == (n % 100) / 10);
        assert(digits_val(fp) == digits_val(lo) * 10 + (fp.last() - 48));
    }
    assert(((n % 100) / 10) * 10 + n % 10 == n % 100) by (nonlinear_arith)
        requires
            n >= 0,
    ;
    assert(all_digits(fp));
    assert(decimal_micros(s) == Some(
        digits_val(ip) * (SCALE as int) + digits_val(fp) * pow10(4),
    ));
    assert(hund * 1000000 + (n % 100) * 10000 == n * 10000) by (nonlinear_arith)
        requires
            hund == n / 100,
            n >= 0,
    ;
    assert(n * 10000 == p) by (nonlinear_arith)
        requires
            n == p / 10000,
            p % 10000 == 0,
            p >= 0,
    ;
}

proof fn lemma_first_dot_position(s: Seq<u8>, ds: Seq<u8>)
    requires
        all_digits(ds),
        ds.len() < s.len(),
        forall|i: int| 0 <= i < ds.len() ==> s[i] == ds[i],
        s[ds.len() as int] == 46,
    ensures
        first_dot(s, 0) == ds.len(),
{
    lemma_first_dot_prefix(s, ds, 0);
}

proof fn lemma_first_dot_prefix(s: Seq<u8>, ds: Seq<u8>, from: int)
    requires
        all_digits(ds),
        ds.len() < s.len(),
        forall|i: int| 0 <= i < ds.len() ==> s[i] == ds[i],
        s[ds.len() as int] == 46,
        0 <= from <= ds.len(),
    ensures
        first_dot(s, from) == ds.len(),
    decreases ds.len() - from,
{
    if from < ds.len() {
        assert(is_digit(ds[from]));
        lemma_first_dot_prefix(s, ds, from + 1);
    }
}

} // verus!
