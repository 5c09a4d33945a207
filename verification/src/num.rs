//! Decimal number handling for the JSON records: rendering an `i64` as
//! decimal text, reading an integer lexeme back, and converting a legacy
//! decimal dollar amount into integer cents by exact decimal arithmetic,
//! rounding half away from zero.

use vstd::prelude::*;
use vstd::string::StrSliceExecFns;
use crate::strutil::{find_char_from, string_push};

verus! {

/// An ASCII decimal digit.
pub open spec fn is_digit(c: char) -> bool {
    '0' <= c && c <= '9'
}

/// The value of a digit character.
pub open spec fn digit_val(c: char) -> int {
    c as int - '0' as int
}

/// The digit character of a value below ten.
pub open spec fn digit_char(d: int) -> char {
    (('0' as u8) + d as u8) as char
}

/// Every character of `s` is a digit.
pub open spec fn all_digits(s: Seq<char>) -> bool {
    forall|i: int| 0 <= i < s.len() ==> is_digit(s[i])
}

/// The decimal rendering of a non-negative integer, no leading zeros.
pub open spec fn dec_rep(n: int) -> Seq<char>
    decreases n,
{
    if n < 10 {
        seq![digit_char(n)]
    } else {
        dec_rep(n / 10).push(digit_char(n % 10))
    }
}

/// The decimal rendering of an `i64`: a `-` sign, then the magnitude.
pub open spec fn i64_rep(n: int) -> Seq<char> {
    if n < 0 {
        seq!['-'] + dec_rep(-n)
    } else {
        dec_rep(n)
    }
}

/// The number a digit string denotes.
pub open spec fn digits_val(s: Seq<char>) -> int
    decreases s.len(),
{
    if s.len() == 0 {
        0
    } else {
        digits_val(s.drop_last()) * 10 + digit_val(s.last())
    }
}

/// Ten to the `k`.
pub open spec fn pow10(k: nat) -> int
    decreases k,
{
    if k == 0 {
        1
    } else {
        10 * pow10((k - 1) as nat)
    }
}

pub proof fn lemma_pow10_pos(k: nat)
    ensures
        pow10(k) >= 1,
        k >= 1 ==> pow10(k) >= 10,
    decreases k,
{
    if k > 0 {
        lemma_pow10_pos((k - 1) as nat);
    }
}

pub proof fn lemma_digits_val_bounds(s: Seq<char>)
    requires
        all_digits(s),
    ensures
        0 <= digits_val(s),
        digits_val(s) < pow10(s.len()),
    decreases s.len(),
{
    if s.len() > 0 {
        assert(all_digits(s.drop_last()));
        lemma_digits_val_bounds(s.drop_last());
    }
}

/// Reading a digit string left to right: appending digits multiplies the
/// prefix value by the corresponding power of ten.
pub proof fn lemma_digits_val_append(a: Seq<char>, b: Seq<char>)
    ensures
        digits_val(a + b) == digits_val(a) * pow10(b.len()) + digits_val(b),
    decreases b.len(),
{
    if b.len() == 0 {
        assert(a + b =~= a);
    } else {
        let b1 = b.drop_last();
        lemma_digits_val_append(a, b1);
        assert((a + b).drop_last() =~= a + b1);
        assert(digits_val(a + b) == digits_val(a + b1) * 10 + digit_val(b.last()));
        assert(digits_val(a + b1) == digits_val(a) * pow10(b1.len()) + digits_val(b1));
        assert(digits_val(a) * pow10(b1.len()) * 10 == digits_val(a) * pow10(b.len()))
            by (nonlinear_arith)
            requires
                pow10(b.len()) == 10 * pow10(b1.len()),
        ;
    }
}

/// A digit character holds the value it was built from.
pub proof fn lemma_digit_char_val(d: int)
    requires
        0 <= d < 10,
    ensures
        is_digit(digit_char(d)),
        digit_val(digit_char(d)) == d,
{
}

/// The decimal rendering of `n` reads back as `n`.
pub proof fn lemma_dec_rep_val(n: int)
    requires
        n >= 0,
    ensures
        all_digits(dec_rep(n)),
        dec_rep(n).len() >= 1,
        digits_val(dec_rep(n)) == n,
    decreases n,
{
    if n < 10 {
        lemma_digit_char_val(n);
        let c = digit_char(n);
        let s1 = seq![c];
        assert(dec_rep(n) == s1);
        assert(s1.last() == c);
        assert(s1.drop_last() =~= Seq::<char>::empty());
        assert(digits_val(s1.drop_last()) == 0);
        assert(digits_val(s1) == digits_val(s1.drop_last()) * 10 + digit_val(s1.last()));
    } else {
        lemma_dec_rep_val(n / 10);
        lemma_digit_char_val(n % 10);
        let r = dec_rep(n / 10).push(digit_char(n % 10));
        assert(r.drop_last() =~= dec_rep(n / 10));
        assert(digits_val(r) == (n / 10) * 10 + n % 10);
    }
}

/// The lexeme shape of an integer: an optional `-` sign, then digits.
pub open spec fn is_int_lexeme(s: Seq<char>) -> bool {
    if s.len() >= 1 && s[0] == '-' {
        s.len() >= 2 && all_digits(s.subrange(1, s.len() as int))
    } else {
        s.len() >= 1 && all_digits(s)
    }
}

/// The integer an integer lexeme denotes.
pub open spec fn int_lexeme_val(s: Seq<char>) -> int {
    if s.len() >= 1 && s[0] == '-' {
        -digits_val(s.subrange(1, s.len() as int))
    } else {
        digits_val(s)
    }
}

/// `s` without a leading `-` sign.
pub open spec fn strip_sign(s: Seq<char>) -> Seq<char> {
    if s.len() >= 1 && s[0] == '-' {
        s.subrange(1, s.len() as int)
    } else {
        s
    }
}

///`t` splits at `d` into a non-empty digit run, then either nothing or a
/// `.` followed by a non-empty digit run.
pub open spec fn dec_split_ok(t: Seq<char>, d: int) -> bool {
    &&& 0 < d <= t.len()
    &&& all_digits(t.subrange(0, d))
    &&& (d == t.len() || (t[d] == '.' && d + 2 <= t.len() && all_digits(
        t.subrange(d + 1, t.len() as int),
    )))
}

/// Some split position makes `t` a decimal digit string.
pub open spec fn has_dec_split(t: Seq<char>) -> bool {
    exists|d: int| 0 <= d <= t.len() && #[trigger] dec_split_ok(t, d)
}

/// The split position of a decimal digit string.
pub open spec fn the_dec_split(t: Seq<char>) -> int {
    choose|d: int| 0 <= d <= t.len() && #[trigger] dec_split_ok(t, d)
}

/// The lexeme shape of a plain decimal: an optional `-` sign, digits, and
/// optionally a `.` followed by at least one digit. Exponent notation is not
/// part of this shape.
pub open spec fn is_dec_lexeme(s: Seq<char>) -> bool {
    has_dec_split(strip_sign(s))
}

/// The first two fraction digits as cents, the fraction padded with zeros.
pub open spec fn frac2_val(f: Seq<char>) -> int {
    if f.len() == 0 {
        0
    } else if f.len() == 1 {
        digit_val(f[0]) * 10
    } else {
        digit_val(f[0]) * 10 + digit_val(f[1])
    }
}

/// Whether the fraction rounds the cent value up (half away from zero).
pub open spec fn frac_rounds_up(f: Seq<char>) -> bool {
    f.len() > 2 && digit_val(f[2]) >= 5
}

/// The magnitude of a decimal lexeme in cents, rounded half away from zero.
/// `t` is the lexeme without its sign, split at `d`.
pub open spec fn dec_cents_mag(t: Seq<char>, d: int) -> int {
    let ip = t.subrange(0, d);
    let fp = if d == t.len() {
        Seq::<char>::empty()
    } else {
        t.subrange(d + 1, t.len() as int)
    };
    digits_val(ip) * 100 + frac2_val(fp) + if frac_rounds_up(fp) {
        1int
    } else {
        0int
    }
}

/// The cents a decimal dollar lexeme denotes.
pub open spec fn dec_lexeme_cents(s: Seq<char>) -> int {
    if s.len() >= 1 && s[0] == '-' {
        -dec_cents_mag(strip_sign(s), the_dec_split(strip_sign(s)))
    } else {
        dec_cents_mag(s, the_dec_split(s))
    }
}

/// A decimal lexeme splits at only one position.
proof fn lemma_split_unique(t: Seq<char>, a: int, b: int)
    requires
        dec_split_ok(t, a),
        0 < b <= t.len(),
        all_digits(t.subrange(0, b)),
        b == t.len() || t[b] == '.',
    ensures
        a == b,
{
    if a < b {
        assert(t.subrange(0, b)[a] == t[a]);
        if a < t.len() && t[a] == '.' {
            assert(is_digit(t.subrange(0, b)[a]));
        }
    }
    if b < a {
        assert(t.subrange(0, a)[b] == t[b]);
    }
}

/// The decimal rendering of an `i64` is an integer lexeme denoting it, and
/// a well-formed number token.
pub proof fn lemma_i64_rep(n: int)
    requires
        i64::MIN <= n <= i64::MAX,
    ensures
        is_int_lexeme(i64_rep(n)),
        int_lexeme_val(i64_rep(n)) == n,
        i64_rep(n).len() >= 1,
        i64_rep(n)[0] == '-' || ('0' <= i64_rep(n)[0] && i64_rep(n)[0] <= '9'),
        forall|k: int|
            0 <= k < i64_rep(n).len() ==> (#[trigger] i64_rep(n)[k] == '-' || ('0' <= i64_rep(
                n,
            )[k] && i64_rep(n)[k] <= '9')),
{
    if n >= 0 {
        lemma_dec_rep_val(n);
        assert(i64_rep(n) == dec_rep(n));
        assert(is_digit(i64_rep(n)[0]));
    } else {
        lemma_dec_rep_val(-n);
        let r = seq!['-'] + dec_rep(-n);
        assert(i64_rep(n) == r);
        assert(r[0] == '-');
        assert(r.subrange(1, r.len() as int) =~= dec_rep(-n));
        assert(all_digits(r.subrange(1, r.len() as int)));
        assert(int_lexeme_val(r) == -digits_val(dec_rep(-n)));
        assert forall|k: int|
            0 <= k < r.len() implies (#[trigger] r[k] == '-' || ('0' <= r[k] && r[k]
            <= '9')) by {
            if k >= 1 {
                assert(r[k] == dec_rep(-n)[k - 1]);
                assert(is_digit(dec_rep(-n)[k - 1]));
            }
        }
    }
}

/// Renders a non-negative integer as decimal text.
fn u64_to_dec(m: u64) -> (r: String)
    ensures
        r@ == dec_rep(m as int),
    decreases m,
{
    if m < 10 {
        let mut s = String::new();
        let d: u8 = 48u8 + (m as u8);
        string_push(&mut s, d as char);
        assert(s@ =~= seq![digit_char(m as int)]);
        s
    } else {
        let mut s = u64_to_dec(m / 10);
        let d: u8 = 48u8 + ((m % 10) as u8);
        string_push(&mut s, d as char);
        assert(s@ =~= dec_rep((m / 10) as int).push(digit_char((m % 10) as int)));
        s
    }
}

/// Renders an `i64` as decimal text.
pub fn i64_to_string(n: i64) -> (r: String)
    ensures
        r@ == i64_rep(n as int),
{
    if n >= 0 {
        u64_to_dec(n as u64)
    } else {
        let mag: u64 = ((-(n + 1)) as u64) + 1;
        let s = "-".to_owned();
        let digits = u64_to_dec(mag);
        let out = s.concat(digits.as_str());
        proof {
            reveal_strlit("-");
            assert(out@ =~= seq!['-'] + dec_rep(-(n as int)));
        }
        out
    }
}

/// Accumulates the digits `s[from..to]`, or reports that some character
/// there is not a digit, or that the value is out of scale. The bail
/// threshold is far beyond any i64, so a bail pins the full value too.
fn digits_accum(s: &str, from: usize, to: usize) -> (r: Option<u128>)
    requires
        from <= to <= s@.len(),
    ensures
        match r {
            Some(v) => all_digits(s@.subrange(from as int, to as int)) && v as int == digits_val(
                s@.subrange(from as int, to as int),
            ) && v <= 0xFFFF_FFFF_FFFF_FFFF,
            None => !all_digits(s@.subrange(from as int, to as int)) || digits_val(
                s@.subrange(from as int, to as int),
            ) > 0xFFFF_FFFF_FFFF_FFFF,
        },
{
    let ghost whole = s@.subrange(from as int, to as int);
    let mut acc: u128 = 0;
    let mut i: usize = from;
    while i < to
        invariant
            from <= i <= to <= s@.len(),
            whole == s@.subrange(from as int, to as int),
            all_digits(s@.subrange(from as int, i as int)),
            acc == digits_val(s@.subrange(from as int, i as int)),
            acc <= 0xFFFF_FFFF_FFFF_FFFF,
        decreases to - i,
    {
        let c = s.get_char(i);
        if !('0' <= c && c <= '9') {
            assert(whole[i - from] == s@[i as int]);
            return None;
        }
        let d: u128 = ((c as u8) - 48) as u128;
        assert(d == digit_val(c));
        acc = acc * 10 + d;
        assert(s@.subrange(from as int, i + 1).drop_last() =~= s@.subrange(from as int, i as int));
        if acc > 0xFFFF_FFFF_FFFF_FFFF {
            proof {
                let pre = s@.subrange(from as int, i + 1);
                let rest = s@.subrange(i + 1, to as int);
                assert(whole =~= pre + rest);
                if all_digits(whole) {
                    assert(all_digits(rest)) by {
                        assert(forall|j: int|
                            0 <= j < rest.len() ==> rest[j] == whole[i + 1 - from + j]);
                    }
                    lemma_digits_val_append(pre, rest);
                    lemma_digits_val_bounds(rest);
                    lemma_pow10_pos(rest.len());
                    assert(digits_val(whole) >= digits_val(pre)) by (nonlinear_arith)
                        requires
                            digits_val(whole) == digits_val(pre) * pow10(rest.len()) + digits_val(
                                rest,
                            ),
                            digits_val(rest) >= 0,
                            pow10(rest.len()) >= 1,
                            digits_val(pre) >= 0,
                    ;
                }
            }
            return None;
        }
        i += 1;
    }
    assert(whole =~= s@.subrange(from as int, to as int));
    Some(acc)
}

/// Reads an integer lexeme; `None` when the text is not an integer lexeme or
/// its value does not fit an `i64`.
pub fn parse_int_lexeme(s: &str) -> (r: Option<i64>)
    ensures
        match r {
            Some(v) => is_int_lexeme(s@) && v as int == int_lexeme_val(s@),
            None => !is_int_lexeme(s@) || int_lexeme_val(s@) < i64::MIN || int_lexeme_val(s@)
                > i64::MAX,
        },
{
    let n = s.unicode_len();
    if n == 0 {
        return None;
    }
    let neg = s.get_char(0) == '-';
    let start: usize = if neg {
        1
    } else {
        0
    };
    if start >= n {
        return None;
    }
    let ghost mag_seq = s@.subrange(start as int, n as int);
    proof {
        if !neg {
            assert(mag_seq =~= s@);
        }
    }
    let acc = match digits_accum(s, start, n) {
        Some(v) => v,
        None => {
            return None;
        },
    };
    assert(is_int_lexeme(s@));
    if neg {
        if acc > 9_223_372_036_854_775_808u128 {
            return None;
        }
        if acc == 9_223_372_036_854_775_808u128 {
            return Some(i64::MIN);
        }
        Some(-(acc as i64))
    } else {
        if acc > 9_223_372_036_854_775_807u128 {
            return None;
        }
        Some(acc as i64)
    }
}

/// Reads a decimal dollar lexeme and converts it to cents, rounding half
/// away from zero; `None` when the text is not a plain decimal lexeme or the
/// cent value does not fit an `i64`.
#[verifier::rlimit(60)]
pub fn dec_lexeme_to_cents(s: &str) -> (r: Option<i64>)
    ensures
        match r {
            Some(v) => is_dec_lexeme(s@) && v as int == dec_lexeme_cents(s@),
            None => !is_dec_lexeme(s@) || dec_lexeme_cents(s@) < i64::MIN || dec_lexeme_cents(s@)
                > i64::MAX,
        },
{
    let n = s.unicode_len();
    if n == 0 {
        assert(!is_dec_lexeme(s@));
        return None;
    }
    let neg = s.get_char(0) == '-';
    let start: usize = if neg {
        1
    } else {
        0
    };
    if start >= n {
        assert(strip_sign(s@).len() == 0);
        return None;
    }
    let ghost t = s@.subrange(start as int, n as int);
    proof {
        assert(t =~= strip_sign(s@));
    }
    // Find the decimal point, if any; the integer part ends there.
    let dend: usize = match find_char_from(s, start, '.') {
        Some(k) => k,
        None => n,
    };
    let ghost d_ghost = dend - start;
    if dend == start {
        // An empty integer part: the first character is already the dot.
        assert forall|d: int| 0 <= d <= t.len() implies !dec_split_ok(t, d) by {
            if dec_split_ok(t, d) {
                assert(t.subrange(0, d)[0] == t[0]);
                assert(t[0] == s@[start as int]);
            }
        }
        return None;
    }
    let ip = match digits_accum(s, start, dend) {
        Some(v) => v,
        None => {
            proof {
                lemma_dec_bail(t, s@, start as int, dend as int, n as int);
                if is_dec_lexeme(s@) {
                    assert(dec_split_ok(t, the_dec_split(t)));
                }
            }
            return None;
        },
    };
    proof {
        assert(t.subrange(0, d_ghost) =~= s@.subrange(start as int, dend as int));
        assert(all_digits(t.subrange(0, d_ghost)));
        assert(ip as int == digits_val(t.subrange(0, d_ghost)));
    }
    // Fraction part.
    let ghost fp = if d_ghost == t.len() {
        Seq::<char>::empty()
    } else {
        t.subrange(d_ghost + 1, t.len() as int)
    };
    let mut f0: u8 = 0;
    let mut f1: u8 = 0;
    let mut round_up = false;
    if dend < n {
        if dend + 1 >= n {
            // A dot with nothing after it.
            assert forall|d: int| 0 <= d <= t.len() implies !dec_split_ok(t, d) by {
                if dec_split_ok(t, d) {
                    lemma_split_unique(t, d, d_ghost);
                }
            }
            return None;
        }
        proof {
            assert(fp =~= s@.subrange(dend + 1, n as int));
        }
        let mut k: usize = dend + 1;
        while k < n
            invariant
                n == s@.len(),
                start < dend < n,
                dend + 2 <= n,
                dend + 1 <= k <= n,
                d_ghost == dend - start,
                t == s@.subrange(start as int, n as int),
                t == strip_sign(s@),
                fp == s@.subrange(dend + 1, n as int),
                fp == t.subrange(d_ghost + 1, t.len() as int),
                all_digits(t.subrange(0, d_ghost)),
                t[d_ghost] == '.',
                all_digits(s@.subrange(dend + 1, k as int)),
                f0 as int == if k > dend + 1 {
                    digit_val(fp[0])
                } else {
                    0
                },
                f1 as int == if k > dend + 2 {
                    digit_val(fp[1])
                } else {
                    0
                },
                round_up == (k > dend + 3 && digit_val(fp[2]) >= 5),
                f0 < 10 && f1 < 10,
            decreases n - k,
        {
            let c = s.get_char(k);
            if !('0' <= c && c <= '9') {
                assert forall|d: int| 0 <= d <= t.len() implies !dec_split_ok(t, d) by {
                    if dec_split_ok(t, d) {
                        lemma_split_unique(t, d, d_ghost);
                        assert(t.subrange(d + 1, t.len() as int)[k - start - d - 1] == t[k
                            - start]);
                        assert(t[k - start] == s@[k as int]);
                    }
                }
                return None;
            }
            if k == dend + 1 {
                f0 = (c as u8) - 48;
                assert(fp[0] == s@[k as int]);
            } else if k == dend + 2 {
                f1 = (c as u8) - 48;
                assert(fp[1] == s@[k as int]);
            } else if k == dend + 3 {
                round_up = (c as u8) >= 53;
                assert(fp[2] == s@[k as int]);
            }
            assert(s@.subrange(dend + 1, k + 1).drop_last() =~= s@.subrange(dend + 1, k as int));
            k += 1;
        }
        assert(all_digits(fp)) by {
            assert(fp =~= s@.subrange(dend + 1, n as int));
        }
    }
    proof {
        if d_ghost < t.len() {
            assert(t[d_ghost] == s@[dend as int]);
        }
        assert(t.subrange(0, d_ghost) =~= s@.subrange(start as int, dend as int));
        assert(dec_split_ok(t, d_ghost));
    }
    let cents_mag: u128 = ip * 100 + (f0 as u128) * 10 + (f1 as u128) + (if round_up {
        1u128
    } else {
        0u128
    });
    proof {
        let d0 = the_dec_split(t);
        assert(dec_split_ok(t, d_ghost));
        assert(0 <= d_ghost <= t.len() && dec_split_ok(t, d_ghost));
        lemma_split_unique(t, d0, d_ghost);
        assert(frac2_val(fp) == (f0 as int) * 10 + f1 as int);
        assert(frac_rounds_up(fp) == round_up);
        assert(cents_mag as int == dec_cents_mag(t, d_ghost));
    }
    if neg {
        if cents_mag > 9_223_372_036_854_775_808u128 {
            return None;
        }
        if cents_mag == 9_223_372_036_854_775_808u128 {
            return Some(i64::MIN);
        }
        Some(-(cents_mag as i64))
    } else {
        if cents_mag > 9_223_372_036_854_775_807u128 {
            return None;
        }
        Some(cents_mag as i64)
    }
}

/// When the integer part is malformed or out of scale, the decimal lexeme
/// as a whole is malformed or its cent value is beyond any i64.
proof fn lemma_dec_bail(t: Seq<char>, s: Seq<char>, start: int, dend: int, n: int)
    requires
        0 <= start < dend <= n,
        n == s.len(),
        t == s.subrange(start, n),
        !all_digits(s.subrange(start, dend)) || digits_val(s.subrange(start, dend))
            > 0xFFFF_FFFF_FFFF_FFFF,
        forall|j: int| start <= j < dend ==> s[j] != '.',
        dend < n ==> s[dend] == '.',
    ensures
        forall|d: int|
            0 <= d <= t.len() && #[trigger] dec_split_ok(t, d) ==> dec_cents_mag(t, d) < -(
            9_223_372_036_854_775_808int) || dec_cents_mag(t, d) > 9_223_372_036_854_775_808int,
{
    assert forall|d: int|
        0 <= d <= t.len() && #[trigger] dec_split_ok(t, d) implies dec_cents_mag(t, d) < -(
    9_223_372_036_854_775_808int) || dec_cents_mag(t, d) > 9_223_372_036_854_775_808int by {
        // The only admissible split is at the found dot (or the end).
        assert(d == dend - start) by {
            if d < dend - start {
                assert(t[d] == '.');
                assert(t[d] == s[start + d]);
            }
            if d > dend - start {
                assert(dend < n);
                assert(t.subrange(0, d)[dend - start] == t[dend - start]);
                assert(t[dend - start] == s[dend]);
                assert(is_digit(s[dend]));
            }
        }
        let ip = t.subrange(0, d);
        assert(ip =~= s.subrange(start, dend));
        assert(all_digits(ip));
        assert(digits_val(ip) > 0xFFFF_FFFF_FFFF_FFFF);
        let fp = if d == t.len() {
            Seq::<char>::empty()
        } else {
            t.subrange(d + 1, t.len() as int)
        };
        assert(frac2_val(fp) >= 0) by {
            if fp.len() >= 1 {
                assert(all_digits(fp));
            }
        }
        assert(digits_val(ip) * 100 > 9_223_372_036_854_775_808int) by (nonlinear_arith)
            requires
                digits_val(ip) > 0xFFFF_FFFF_FFFF_FFFFint,
        ;
    }
}

} // verus!
