//! Parsing and formatting of price text.
//!
//! The marketplace delivers prices as decimal text such as `"95.50"`.  The
//! library keeps every price as a whole number of cents, so parsing and
//! formatting are exact.  Accepted price text is a non-empty run of ASCII
//! digits, optionally followed by `.` and one or two more digits; anything
//! else — and any value above [`MAX_PRICE_CENTS`] — is treated as absent.

use vstd::prelude::*;
use crate::items::MAX_PRICE_CENTS;

verus! {

/// The largest whole-unit part a price may carry; together with two cent
/// digits it reaches exactly [`MAX_PRICE_CENTS`].
pub const MAX_WHOLE_UNITS: u64 = 9_999_999_999_999;

pub open spec fn is_digit_char(c: char) -> bool {
    '0' <= c && c <= '9'
}

pub open spec fn digit_val(c: char) -> int {
    c as int - '0' as int
}

pub open spec fn all_digits(s: Seq<char>) -> bool {
    forall|i: int| 0 <= i < s.len() ==> is_digit_char(s[i])
}

/// The numeric value of a run of digit characters, most significant first.
pub open spec fn digits_val(s: Seq<char>) -> int
    decreases s.len(),
{
    if s.len() == 0 {
        0
    } else {
        10 * digits_val(s.drop_last()) + digit_val(s.last())
    }
}

/// The index of the first `.` in `s` at or after `i`, or `s.len()` if none.
pub open spec fn first_dot_from(s: Seq<char>, i: int) -> int
    decreases s.len() - i,
{
    if i < 0 || i >= s.len() {
        s.len() as int
    } else if s[i] == '.' {
        i
    } else {
        first_dot_from(s, i + 1)
    }
}

/// A usable whole-unit part: non-empty, all digits, and small enough that
/// the price fits in cents.
pub open spec fn whole_part_ok(s: Seq<char>) -> bool {
    s.len() > 0 && all_digits(s) && digits_val(s) <= MAX_WHOLE_UNITS
}

/// What a run of digits parses to: its value, or `None` when the text is
/// empty, holds a non-digit, or exceeds [`MAX_WHOLE_UNITS`].
pub open spec fn digits_parse_spec(s: Seq<char>) -> Option<u64> {
    if whole_part_ok(s) {
        Some(digits_val(s) as u64)
    } else {
        None
    }
}

/// What price text parses to, in cents.
pub open spec fn parse_price_spec(s: Seq<char>) -> Option<u64> {
    let k = first_dot_from(s, 0);
    if k == s.len() {
        match digits_parse_spec(s) {
            Some(w) => Some((100 * w) as u64),
            None => None,
        }
    } else {
        let whole = s.subrange(0, k);
        let frac = s.subrange(k + 1, s.len() as int);
        if 1 <= frac.len() <= 2 {
            match (digits_parse_spec(whole), digits_parse_spec(frac)) {
                (Some(w), Some(f)) => Some(
                    (100 * w + f * (if frac.len() == 1 { 10 as int } else { 1 as int })) as u64,
                ),
                _ => None,
            }
        } else {
            None
        }
    }
}

pub proof fn lemma_digits_val_nonneg(s: Seq<char>)
    requires
        all_digits(s),
    ensures
        digits_val(s) >= 0,
    decreases s.len(),
{
    if s.len() > 0 {
        assert(all_digits(s.drop_last()));
        lemma_digits_val_nonneg(s.drop_last());
        assert(is_digit_char(s.last()));
    }
}

/// A prefix of a digit run is worth no more than the whole run.
pub proof fn lemma_digits_val_prefix_le(s: Seq<char>, i: int)
    requires
        all_digits(s),
        0 <= i <= s.len(),
    ensures
        digits_val(s.subrange(0, i)) <= digits_val(s),
    decreases s.len() - i,
{
    if i == s.len() {
        assert(s.subrange(0, i) =~= s);
    } else {
        let t = s.subrange(0, i + 1);
        assert(t.drop_last() =~= s.subrange(0, i));
        assert(all_digits(t));
        lemma_digits_val_nonneg(t.drop_last());
        assert(is_digit_char(t.last()));
        assert(digits_val(t) == 10 * digits_val(s.subrange(0, i)) + digit_val(t.last()));
        lemma_digits_val_prefix_le(s, i + 1);
    }
}

/// A parsed price always fits the supported range.
pub proof fn lemma_parse_price_bound(s: Seq<char>)
    ensures
        parse_price_spec(s) matches Some(c) ==> c <= MAX_PRICE_CENTS,
{
    let k = first_dot_from(s, 0);
    if k == s.len() {
        if whole_part_ok(s) {
            lemma_digits_val_nonneg(s);
        }
    } else {
        let whole = s.subrange(0, k);
        let frac = s.subrange(k + 1, s.len() as int);
        if whole_part_ok(whole) && whole_part_ok(frac) && 1 <= frac.len() <= 2 {
            lemma_digits_val_nonneg(whole);
            lemma_digits_val_nonneg(frac);
            if frac.len() == 1 {
                assert(digits_val(frac) == 10 * digits_val(frac.drop_last()) + digit_val(
                    frac.last(),
                ));
                assert(frac.drop_last().len() == 0);
                assert(digits_val(frac) <= 9);
            } else {
                let f0 = frac.drop_last();
                assert(f0.len() == 1);
                assert(digits_val(f0) == 10 * digits_val(f0.drop_last()) + digit_val(f0.last()));
                assert(f0.drop_last().len() == 0);
                assert(digits_val(f0) <= 9);
                assert(digits_val(frac) <= 99);
            }
        }
    }
}

/// Parses the digit run `s[from..to]`; `None` on a non-digit, an empty
/// range, or a value above [`MAX_WHOLE_UNITS`].
fn digits_to_val(s: &str, from: usize, to: usize) -> (r: Option<u64>)
    requires
        from <= to <= s@.len(),
    ensures
        r == digits_parse_spec(s@.subrange(from as int, to as int)),
{
    let ghost t = s@.subrange(from as int, to as int);
    if from == to {
        return None;
    }
    let mut acc: u64 = 0;
    let mut i: usize = from;
    while i < to
        invariant
            from <= i <= to <= s@.len(),
            t == s@.subrange(from as int, to as int),
            all_digits(s@.subrange(from as int, i as int)),
            acc == digits_val(s@.subrange(from as int, i as int)),
            acc <= MAX_WHOLE_UNITS,
        decreases to - i,
    {
        let ghost pre = s@.subrange(from as int, i as int);
        let c = s.get_char(i);
        proof {
            assert(s@.subrange(from as int, i as int + 1).drop_last() =~= pre);
            assert(s@.subrange(from as int, i as int + 1).last() == s@[i as int]);
        }
        if !('0' <= c && c <= '9') {
            proof {
                assert(t[i - from] == s@[i as int]);
                assert(!all_digits(t));
            }
            return None;
        }
        if acc >= 1_000_000_000_000 {
            // one more digit pushes the value past MAX_WHOLE_UNITS
            proof {
                let ext = s@.subrange(from as int, i as int + 1);
                assert(digits_val(ext) == 10 * acc + digit_val(s@[i as int]));
                assert(digits_val(ext) > MAX_WHOLE_UNITS);
                if all_digits(t) {
                    lemma_digits_val_nonneg(t);
                    assert(ext =~= t.subrange(0, i - from + 1));
                    lemma_digits_val_prefix_le(t, i - from + 1);
                }
            }
            return None;
        }
        let d: u64 = (c as u32 - 48) as u64;
        proof {
            assert(d == digit_val(s@[i as int]));
            assert(digits_val(s@.subrange(from as int, i as int + 1)) == 10 * acc + d);
        }
        acc = acc * 10 + d;
        i = i + 1;
    }
    proof {
        assert(s@.subrange(from as int, i as int) =~= t);
    }
    Some(acc)
}

/// When no `.` stands before `k` and either `k` is the end or holds a `.`,
/// the first dot of the whole text is at `k`.
proof fn lemma_first_dot_at(s: Seq<char>, k: int, j: int)
    requires
        0 <= j <= k <= s.len(),
        forall|m: int| j <= m < k ==> s[m] != '.',
        k == s.len() || s[k] == '.',
    ensures
        first_dot_from(s, j) == k,
    decreases k - j,
{
    if j < k {
        lemma_first_dot_at(s, k, j + 1);
    }
}

/// Parses price text into cents.
///
/// Returns `Some` exactly when the text is a digit run, optionally with a
/// `.` and one or two fraction digits, whose value fits the supported
/// range; the result is the exact value in cents.
pub fn parse_price_cents(s: &str) -> (r: Option<u64>)
    ensures
        r == parse_price_spec(s@),
        r matches Some(c) ==> c <= MAX_PRICE_CENTS,
{
    proof {
        lemma_parse_price_bound(s@);
    }
    let n = s.unicode_len();
    let mut k: usize = 0;
    while k < n && s.get_char(k) != '.'
        invariant
            0 <= k <= n == s@.len(),
            forall|m: int| 0 <= m < k ==> s@[m] != '.',
        decreases n - k,
    {
        k = k + 1;
    }
    proof {
        lemma_first_dot_at(s@, k as int, 0);
    }
    if k == n {
        match digits_to_val(s, 0, n) {
            Some(w) => {
                proof {
                    assert(s@.subrange(0, n as int) =~= s@);
                    lemma_digits_val_nonneg(s@);
                }
                Some(100 * w)
            },
            None => {
                proof {
                    assert(s@.subrange(0, n as int) =~= s@);
                }
                None
            },
        }
    } else {
        let frac_len = n - k - 1;
        if frac_len < 1 || frac_len > 2 {
            return None;
        }
        let w = digits_to_val(s, 0, k);
        let f = digits_to_val(s, k + 1, n);
        match (w, f) {
            (Some(wv), Some(fv)) => {
                let ghost whole = s@.subrange(0, k as int);
                let ghost frac = s@.subrange(k as int + 1, n as int);
                proof {
                    lemma_digits_val_nonneg(whole);
                    lemma_digits_val_nonneg(frac);
                    assert(wv == digits_val(whole));
                    assert(wv <= MAX_WHOLE_UNITS);
                    if frac.len() == 1 {
                        assert(frac.drop_last().len() == 0);
                        assert(digits_val(frac) == 10 * digits_val(frac.drop_last()) + digit_val(
                            frac.last(),
                        ));
                        assert(is_digit_char(frac.last()));
                        assert(digits_val(frac) <= 9);
                    } else {
                        let f0 = frac.drop_last();
                        assert(f0.len() == 1);
                        assert(f0.drop_last().len() == 0);
                        assert(digits_val(f0) == 10 * digits_val(f0.drop_last()) + digit_val(
                            f0.last(),
                        ));
                        assert(is_digit_char(f0.last()));
                        assert(is_digit_char(frac.last()));
                        assert(digits_val(frac) == 10 * digits_val(f0) + digit_val(frac.last()));
                        assert(digits_val(frac) <= 99);
                    }
                    assert(fv == digits_val(frac));
                    assert(fv <= 99);
                }
                let scaled: u64 = if frac_len == 1 {
                    fv * 10
                } else {
                    fv
                };
                Some(100 * wv + scaled)
            },
            _ => None,
        }
    }
}

/// The decimal digit as a character.
pub open spec fn digit_char(d: int) -> char {
    if d == 0 {
        '0'
    } else if d == 1 {
        '1'
    } else if d == 2 {
        '2'
    } else if d == 3 {
        '3'
    } else if d == 4 {
        '4'
    } else if d == 5 {
        '5'
    } else if d == 6 {
        '6'
    } else if d == 7 {
        '7'
    } else if d == 8 {
        '8'
    } else {
        '9'
    }
}

/// The decimal rendering of a non-negative number, most significant first.
pub open spec fn dec_str(n: int) -> Seq<char>
    decreases n,
{
    if n < 10 {
        seq![digit_char(n)]
    } else {
        dec_str(n / 10).push(digit_char(n % 10))
    }
}

/// A cent amount rendered with exactly two decimal places.
pub open spec fn cents_text(c: int) -> Seq<char> {
    dec_str(c / 100) + seq!['.', digit_char((c % 100) / 10), digit_char(c % 10)]
}

fn digit_str(d: u64) -> (r: &'static str)
    requires
        d < 10,
    ensures
        r@ == seq![digit_char(d as int)],
{
    let r: &'static str = if d == 0 {
        "0"
    } else if d == 1 {
        "1"
    } else if d == 2 {
        "2"
    } else if d == 3 {
        "3"
    } else if d == 4 {
        "4"
    } else if d == 5 {
        "5"
    } else if d == 6 {
        "6"
    } else if d == 7 {
        "7"
    } else if d == 8 {
        "8"
    } else {
        "9"
    };
    proof {
        reveal_strlit("0");
        reveal_strlit("1");
        reveal_strlit("2");
        reveal_strlit("3");
        reveal_strlit("4");
        reveal_strlit("5");
        reveal_strlit("6");
        reveal_strlit("7");
        reveal_strlit("8");
        reveal_strlit("9");
        assert(r@ =~= seq![digit_char(d as int)]);
    }
    r
}

fn format_units(n: u64) -> (r: String)
    ensures
        r@ == dec_str(n as int),
    decreases n,
{
    if n < 10 {
        let r = digit_str(n).to_owned();
        proof {
            assert(r@ =~= dec_str(n as int));
        }
        r
    } else {
        let mut r = format_units(n / 10);
        r.append(digit_str(n % 10));
        proof {
            assert(r@ =~= dec_str(n as int));
        }
        r
    }
}

/// The decimal rendering of a non-negative number consists of digits and
/// reads back as the number itself.
proof fn lemma_dec_str_digits(n: int)
    requires
        n >= 0,
    ensures
        all_digits(dec_str(n)),
        dec_str(n).len() >= 1,
        digits_val(dec_str(n)) == n,
    decreases n,
{
    if n < 10 {
        let s = dec_str(n);
        assert(s == seq![digit_char(n)]);
        assert(is_digit_char(digit_char(n)));
        assert(digit_val(digit_char(n)) == n);
        assert(s.drop_last().len() == 0);
        assert(digits_val(s) == 10 * digits_val(s.drop_last()) + digit_val(s.last()));
    } else {
        assert(0 <= n / 10 < n) by (nonlinear_arith)
            requires
                n >= 10,
        ;
        lemma_dec_str_digits(n / 10);
        let t = dec_str(n / 10);
        let s = dec_str(n);
        assert(s == t.push(digit_char(n % 10)));
        assert(s.drop_last() =~= t);
        vstd::arithmetic::div_mod::lemma_mod_bound(n, 10);
        assert(digit_val(digit_char(n % 10)) == n % 10);
        assert(digits_val(s) == 10 * (n / 10) + n % 10);
        vstd::arithmetic::div_mod::lemma_fundamental_div_mod(n, 10);
        assert forall|i: int| 0 <= i < s.len() implies is_digit_char(s[i]) by {
            if i < t.len() {
                assert(s[i] == t[i]);
            }
        }
    }
}

/// Round trip: formatting a cent amount with two decimal places and
/// parsing the text back returns the amount, for every amount in the
/// supported range.
pub proof fn lemma_format_parse_round_trip(c: int)
    requires
        0 <= c <= MAX_PRICE_CENTS,
    ensures
        parse_price_spec(cents_text(c)) == Some(c as u64),
{
    let u = c / 100;
    vstd::arithmetic::div_mod::lemma_div_is_ordered(0, c, 100);
    vstd::arithmetic::div_mod::lemma_div_is_ordered(c, MAX_PRICE_CENTS as int, 100);
    assert(MAX_PRICE_CENTS as int / 100 == MAX_WHOLE_UNITS as int);
    lemma_dec_str_digits(u);
    let t = dec_str(u);
    let s = cents_text(c);
    let k = t.len() as int;
    assert(s.len() == k + 3);
    vstd::arithmetic::div_mod::lemma_mod_bound(c, 100);
    vstd::arithmetic::div_mod::lemma_mod_bound(c, 10);
    let d1 = (c % 100) / 10;
    let d0 = c % 10;
    assert(0 <= d1 <= 9);
    assert forall|m: int| 0 <= m < k implies s[m] != '.' by {
        assert(s[m] == t[m]);
        assert(is_digit_char(t[m]));
    }
    assert(s[k] == '.');
    lemma_first_dot_at(s, k, 0);
    let whole = s.subrange(0, k);
    let frac = s.subrange(k + 1, s.len() as int);
    assert(whole =~= t);
    assert(frac =~= seq![digit_char(d1), digit_char(d0)]);
    assert(whole_part_ok(whole));
    // the two fraction digits read back as c % 100
    let sd = seq![digit_char(d1)];
    assert(frac.drop_last() =~= sd);
    assert(sd.drop_last().len() == 0);
    assert(digits_val(sd.drop_last()) == 0);
    assert(sd.last() == digit_char(d1));
    assert(digits_val(sd) == 10 * digits_val(sd.drop_last()) + digit_val(sd.last()));
    assert(digit_val(digit_char(d1)) == d1);
    assert(digit_val(digit_char(d0)) == d0);
    assert(frac.last() == digit_char(d0));
    assert(digits_val(frac) == 10 * digits_val(frac.drop_last()) + digit_val(frac.last()));
    assert(digits_val(frac) == 10 * d1 + d0);
    vstd::arithmetic::div_mod::lemma_mod_mod(c, 10, 10);
    vstd::arithmetic::div_mod::lemma_fundamental_div_mod(c % 100, 10);
    assert(digits_val(frac) == c % 100);
    assert(all_digits(frac));
    assert(whole_part_ok(frac));
    vstd::arithmetic::div_mod::lemma_fundamental_div_mod(c, 100);
    assert(100 * digits_val(whole) + digits_val(frac) * 1 == c);
}

/// Renders a cent amount as decimal text with exactly two decimal places,
/// e.g. `9550` becomes `"95.50"`.
pub fn format_cents(c: u64) -> (r: String)
    ensures
        r@ == cents_text(c as int),
{
    let mut r = format_units(c / 100);
    r.append(".");
    r.append(digit_str((c % 100) / 10));
    r.append(digit_str(c % 10));
    proof {
        reveal_strlit(".");
        assert((c as int % 100) / 10 == ((c / 100) as int * 0) + (c % 100) as int / 10);
        assert(r@ =~= cents_text(c as int));
    }
    r
}

} // verus!
