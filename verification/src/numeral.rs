//! Decimal numerals: the grammar of a numeric token, an exact parser from
//! text to `Fixed`, and a canonical renderer back to text.
//!
//! A numeric token is one or more decimal digits, optionally followed by a
//! point and one to six fractional digits.  The renderer always emits the
//! integral part, a point, and exactly six fractional digits.

use vstd::prelude::*;
use vstd::arithmetic::div_mod::{lemma_fundamental_div_mod, lemma_mod_breakdown, lemma_small_mod};
use vstd::arithmetic::mul::lemma_mul_upper_bound;
use crate::fixed::{Fixed, SCALE};

verus! {

/// A decimal digit character.
pub open spec fn is_digit(c: char) -> bool {
    48 <= c as u32 && c as u32 <= 57
}

/// The value of a digit character (zero on anything else).
pub open spec fn digit_val(c: char) -> nat {
    if is_digit(c) {
        (c as u32 - 48) as nat
    } else {
        0
    }
}

/// The digit character with value `d` (for `d < 10`).
pub open spec fn digit_char(d: nat) -> char {
    if d == 0 {
        '0'
    } else if d == 1 {
        '1'
    } else if d == 2 {
        '2'
    } else if d == 3 {
        '3'
    } else if d == 4 {
        '4'
    } else if d == 5 {
        '5'
    } else if d == 6 {
        '6'
    } else if d == 7 {
        '7'
    } else if d == 8 {
        '8'
    } else {
        '9'
    }
}

/// Every character of `s` is a decimal digit.
pub open spec fn all_digits(s: Seq<char>) -> bool {
    forall|i: int| 0 <= i < s.len() ==> is_digit(#[trigger] s[i])
}

/// The value of a digit string read in base ten.
pub open spec fn digits_val(s: Seq<char>) -> nat
    decreases s.len(),
{
    if s.len() == 0 {
        0
    } else {
        digits_val(s.drop_last()) * 10 + digit_val(s.last())
    }
}

/// Ten to the `k`.
pub open spec fn pow10(k: nat) -> nat
    decreases k,
{
    if k == 0 {
        1
    } else {
        10 * pow10((k - 1) as nat)
    }
}

/// The shortest digit string for `n` (a single zero for zero).
pub open spec fn dec_digits(n: nat) -> Seq<char>
    decreases n,
{
    if n < 10 {
        seq![digit_char(n)]
    } else {
        dec_digits(n / 10).push(digit_char(n % 10))
    }
}

/// The last `k` digits of `n`, zero-padded to exactly `k` characters.
pub open spec fn fixed_width(m: nat, k: nat) -> Seq<char>
    decreases k,
{
    if k == 0 {
        Seq::empty()
    } else {
        fixed_width(m / 10, (k - 1) as nat).push(digit_char(m % 10))
    }
}

/// The index of the first occurrence of `c` in `s`, or -1.
pub open spec fn find_char(s: Seq<char>, c: char) -> int
    decreases s.len(),
{
    if s.len() == 0 {
        -1
    } else if s[0] == c {
        0
    } else if find_char(s.drop_first(), c) == -1 {
        -1
    } else {
        find_char(s.drop_first(), c) + 1
    }
}

/// Weight of a fractional part `len` digits long: what its digit value must
/// be multiplied by to give micro-units.
pub open spec fn frac_scale(len: nat) -> nat {
    pow10((6 - len) as nat)
}

/// A well-formed numeric token whose value fits the fixed-point range:
/// digits, optionally a point and one to six more digits.
pub open spec fn number_ok(t: Seq<char>) -> bool {
    let d = find_char(t, '.');
    if d == -1 {
        &&& t.len() >= 1
        &&& all_digits(t)
        &&& digits_val(t) * (SCALE as nat) <= u64::MAX
    } else {
        let ip = t.take(d);
        let fp = t.skip(d + 1);
        &&& ip.len() >= 1
        &&& all_digits(ip)
        &&& 1 <= fp.len() <= 6
        &&& all_digits(fp)
        &&& digits_val(ip) * (SCALE as nat) + digits_val(fp) * frac_scale(fp.len()) <= u64::MAX
    }
}

/// The value of a numeric token, in micro-units.
pub open spec fn number_units(t: Seq<char>) -> int {
    let d = find_char(t, '.');
    if d == -1 {
        (digits_val(t) * (SCALE as nat)) as int
    } else {
        (digits_val(t.take(d)) * (SCALE as nat) + digits_val(t.skip(d + 1)) * frac_scale(
            t.skip(d + 1).len(),
        )) as int
    }
}

/// The canonical text of a micro-unit count: integral part, point, six
/// fractional digits.
pub open spec fn number_text(units: nat) -> Seq<char> {
    dec_digits(units / (SCALE as nat)) + seq!['.'] + fixed_width(units % (SCALE as nat), 6)
}

/// A digit character with value below ten carries exactly that value.
pub proof fn lemma_digit_char(d: nat)
    requires
        d < 10,
    ensures
        is_digit(digit_char(d)),
        digit_val(digit_char(d)) == d,
{
}

/// `dec_digits` produces a non-empty digit string whose value is `n`.
pub proof fn lemma_dec_digits(n: nat)
    ensures
        dec_digits(n).len() >= 1,
        all_digits(dec_digits(n)),
        digits_val(dec_digits(n)) == n,
    decreases n,
{
    if n < 10 {
        lemma_digit_char(n);
        let s = dec_digits(n);
        assert(s.drop_last() =~= Seq::<char>::empty());
        assert(digits_val(Seq::<char>::empty()) == 0);
        assert(digits_val(s) == digit_val(digit_char(n)));
    } else {
        lemma_dec_digits(n / 10);
        lemma_digit_char(n % 10);
        let p = dec_digits(n / 10);
        let s = p.push(digit_char(n % 10));
        assert(s.drop_last() =~= p);
        assert(digits_val(s) == (n / 10) * 10 + n % 10);
        lemma_fundamental_div_mod(n as int, 10);
        assert(forall|i: int| 0 <= i < s.len() ==> is_digit(#[trigger] s[i])) by {
            assert(forall|i: int| 0 <= i < p.len() ==> is_digit(#[trigger] p[i]));
        }
    }
}

/// `fixed_width` produces exactly `k` digits whose value is `m` modulo ten
/// to the `k`.
pub proof fn lemma_fixed_width(m: nat, k: nat)
    ensures
        fixed_width(m, k).len() == k,
        all_digits(fixed_width(m, k)),
        digits_val(fixed_width(m, k)) == m % pow10(k),
    decreases k,
{
    lemma_pow10_pos(k);
    if k == 0 {
        assert(m % 1 == 0) by {
            lemma_small_mod(0, 1);
            lemma_fundamental_div_mod(m as int, 1);
        }
    } else {
        lemma_fixed_width(m / 10, (k - 1) as nat);
        lemma_digit_char(m % 10);
        lemma_pow10_pos((k - 1) as nat);
        let p = fixed_width(m / 10, (k - 1) as nat);
        let s = p.push(digit_char(m % 10));
        assert(s.drop_last() =~= p);
        assert(digits_val(s) == ((m / 10) % pow10((k - 1) as nat)) * 10 + m % 10);
        lemma_mod_breakdown(m as int, 10, pow10((k - 1) as nat) as int);
        assert(pow10(k) == 10 * pow10((k - 1) as nat));
        assert(forall|i: int| 0 <= i < s.len() ==> is_digit(#[trigger] s[i])) by {
            assert(forall|i: int| 0 <= i < p.len() ==> is_digit(#[trigger] p[i]));
        }
    }
}

/// A product of naturals is at least its left factor when the right one is
/// positive.
pub proof fn lemma_mul_at_least(a: nat, b: nat)
    requires
        b >= 1,
    ensures
        a * b >= a,
{
    assert(a * b >= a) by (nonlinear_arith)
        requires
            b >= 1,
            a >= 0,
    ;
}

/// Ten to the `k` is positive.
pub proof fn lemma_pow10_pos(k: nat)
    ensures
        pow10(k) >= 1,
    decreases k,
{
    if k > 0 {
        lemma_pow10_pos((k - 1) as nat);
    }
}

/// Dropping characters from the end of a digit string cannot raise its value.
pub proof fn lemma_digits_val_prefix_le(s: Seq<char>, k: int)
    requires
        0 <= k <= s.len(),
    ensures
        digits_val(s.take(k)) <= digits_val(s),
    decreases s.len(),
{
    if k == s.len() {
        assert(s.take(k) =~= s);
    } else {
        lemma_digits_val_prefix_le(s.drop_last(), k);
        assert(s.drop_last().take(k) =~= s.take(k));
    }
}

/// If `c` first occurs at `i` (or not at all when `i` is the length),
/// `find_char` says so.
pub proof fn lemma_find_char_at(s: Seq<char>, c: char, i: int)
    requires
        0 <= i <= s.len(),
        forall|j: int| 0 <= j < i ==> s[j] != c,
        i < s.len() ==> s[i] == c,
    ensures
        find_char(s, c) == if i == s.len() {
            -1
        } else {
            i
        },
    decreases i,
{
    if i == 0 {
    } else {
        let r = s.drop_first();
        assert(forall|j: int| 0 <= j < i - 1 ==> r[j] != c) by {
            assert(forall|j: int| 0 <= j < i - 1 ==> r[j] == s[j + 1]);
        }
        assert(i - 1 < r.len() ==> r[i - 1] == c);
        lemma_find_char_at(r, c, i - 1);
    }
}

/// The single digit character with value `d`, as a string slice.
fn digit_str(d: u64) -> (r: &'static str)
    requires
        d < 10,
    ensures
        r@ == seq![digit_char(d as nat)],
{
    if d == 0 {
        proof {
            reveal_strlit("0");
            assert("0"@ =~= seq![digit_char(0)]);
        }
        "0"
    } else if d == 1 {
        proof {
            reveal_strlit("1");
            assert("1"@ =~= seq![digit_char(1)]);
        }
        "1"
    } else if d == 2 {
        proof {
            reveal_strlit("2");
            assert("2"@ =~= seq![digit_char(2)]);
        }
        "2"
    } else if d == 3 {
        proof {
            reveal_strlit("3");
            assert("3"@ =~= seq![digit_char(3)]);
        }
        "3"
    } else if d == 4 {
        proof {
            reveal_strlit("4");
            assert("4"@ =~= seq![digit_char(4)]);
        }
        "4"
    } else if d == 5 {
        proof {
            reveal_strlit("5");
            assert("5"@ =~= seq![digit_char(5)]);
        }
        "5"
    } else if d == 6 {
        proof {
            reveal_strlit("6");
            assert("6"@ =~= seq![digit_char(6)]);
        }
        "6"
    } else if d == 7 {
        proof {
            reveal_strlit("7");
            assert("7"@ =~= seq![digit_char(7)]);
        }
        "7"
    } else if d == 8 {
        proof {
            reveal_strlit("8");
            assert("8"@ =~= seq![digit_char(8)]);
        }
        "8"
    } else {
        proof {
            reveal_strlit("9");
            assert("9"@ =~= seq![digit_char(9)]);
        }
        "9"
    }
}

/// Render `n` as its shortest decimal digit string.
fn render_digits(n: u64) -> (s: String)
    ensures
        s@ == dec_digits(n as nat),
    decreases n,
{
    if n < 10 {
        String::from_str(digit_str(n))
    } else {
        let mut s = render_digits(n / 10);
        s.append(digit_str(n % 10));
        proof {
            assert(dec_digits((n / 10) as nat).push(digit_char((n % 10) as nat)) =~= dec_digits(
                (n / 10) as nat,
            ) + seq![digit_char((n % 10) as nat)]);
        }
        s
    }
}

/// Render the last `k` digits of `m`, zero-padded to width `k`.
fn render_fixed_width(m: u64, k: usize) -> (s: String)
    ensures
        s@ == fixed_width(m as nat, k as nat),
    decreases k,
{
    if k == 0 {
        String::new()
    } else {
        let mut s = render_fixed_width(m / 10, k - 1);
        s.append(digit_str(m % 10));
        proof {
            assert(fixed_width((m / 10) as nat, (k - 1) as nat).push(
                digit_char((m % 10) as nat),
            ) =~= fixed_width((m / 10) as nat, (k - 1) as nat) + seq![
                digit_char((m % 10) as nat),
            ]);
        }
        s
    }
}

/// Render a fixed-point value canonically: integral part, point, six
/// fractional digits.
pub fn render_number(v: Fixed) -> (s: String)
    ensures
        s@ == number_text(v.units as nat),
{
    let mut s = render_digits(v.units / SCALE);
    proof {
        reveal_strlit(".");
        assert("."@ =~= seq!['.']);
    }
    s.append(".");
    let f = render_fixed_width(v.units % SCALE, 6);
    s.append(f.as_str());
    s
}

/// Parse the digit run `t[from..to]`; fails on a non-digit or a value
/// beyond `u64`.
fn parse_digits(t: &str, from: usize, to: usize) -> (r: Option<u64>)
    requires
        from <= to <= t@.len(),
    ensures
        match r {
            Some(v) => {
                &&& all_digits(t@.subrange(from as int, to as int))
                &&& v == digits_val(t@.subrange(from as int, to as int))
            },
            None => !{
                &&& all_digits(t@.subrange(from as int, to as int))
                &&& digits_val(t@.subrange(from as int, to as int)) <= u64::MAX
            },
        },
{
    let ghost whole = t@.subrange(from as int, to as int);
    let mut i: usize = from;
    let mut acc: u64 = 0;
    while i < to
        invariant
            from <= i <= to <= t@.len(),
            whole == t@.subrange(from as int, to as int),
            all_digits(t@.subrange(from as int, i as int)),
            acc == digits_val(t@.subrange(from as int, i as int)),
        decreases to - i,
    {
        let c = t.get_char(i);
        let u = c as u32;
        if u < 48 || u > 57 {
            proof {
                assert(whole[i - from] == t@[i as int]);
                assert(!is_digit(whole[i - from]));
            }
            return None;
        }
        let d = (u - 48) as u64;
        proof {
            assert(is_digit(t@[i as int]));
            assert(digit_val(t@[i as int]) == d);
            let pre = t@.subrange(from as int, i as int);
            let ext = t@.subrange(from as int, i + 1);
            assert(ext.drop_last() =~= pre);
            assert(ext.last() == t@[i as int]);
            assert(digits_val(ext) == acc * 10 + d);
            assert(forall|j: int| 0 <= j < ext.len() ==> is_digit(#[trigger] ext[j])) by {
                assert(forall|j: int| 0 <= j < pre.len() ==> is_digit(#[trigger] pre[j]));
                assert(ext[ext.len() - 1] == t@[i as int]);
            }
        }
        let next = match acc.checked_mul(10) {
            Some(m) => m.checked_add(d),
            None => None,
        };
        match next {
            Some(a) => {
                acc = a;
            },
            None => {
                proof {
                    let ext = t@.subrange(from as int, i + 1);
                    assert(digits_val(ext) > u64::MAX);
                    if all_digits(whole) && digits_val(whole) <= u64::MAX {
                        lemma_digits_val_prefix_le(whole, i + 1 - from);
                        assert(whole.take(i + 1 - from) =~= ext);
                    }
                }
                return None;
            },
        }
        i = i + 1;
    }
    proof {
        assert(t@.subrange(from as int, i as int) =~= whole);
    }
    Some(acc)
}

/// Ten to the `k`, executable, for exponents up to six.
fn pow10_small(k: usize) -> (r: u64)
    requires
        k <= 6,
    ensures
        r == pow10(k as nat),
        r <= 1000000,
{
    proof {
        reveal_with_fuel(pow10, 8);
    }
    if k == 0 {
        1
    } else if k == 1 {
        10
    } else if k == 2 {
        100
    } else if k == 3 {
        1000
    } else if k == 4 {
        10000
    } else if k == 5 {
        100000
    } else {
        1000000
    }
}

/// Parse a numeric token into a fixed-point value.  Returns the value
/// exactly when the token is well formed and in range.
pub fn parse_number(t: &str) -> (r: Option<Fixed>)
    ensures
        match r {
            Some(v) => number_ok(t@) && v.units == number_units(t@),
            None => !number_ok(t@),
        },
{
    let n = t.unicode_len();
    let mut i: usize = 0;
    while i < n && t.get_char(i) != '.'
        invariant
            0 <= i <= n == t@.len(),
            forall|j: int| 0 <= j < i ==> t@[j] != '.',
        decreases n - i,
    {
        i = i + 1;
    }
    proof {
        lemma_find_char_at(t@, '.', i as int);
    }
    if i == n {
        // No point: the whole token is the integral part.
        if n == 0 {
            return None;
        }
        let w = match parse_digits(t, 0, n) {
            Some(w) => w,
            None => {
                proof {
                    assert(t@.subrange(0, n as int) =~= t@);
                    if all_digits(t@) && digits_val(t@) * (SCALE as nat) <= u64::MAX {
                        lemma_mul_at_least(digits_val(t@), SCALE as nat);
                    }
                }
                return None;
            },
        };
        proof {
            assert(t@.subrange(0, n as int) =~= t@);
            lemma_mul_upper_bound(w as int, u64::MAX as int, SCALE as int, SCALE as int);
        }
        let u: u128 = (w as u128) * (SCALE as u128);
        if u > u64::MAX as u128 {
            return None;
        }
        Some(Fixed { units: u as u64 })
    } else {
        // A point at `i`: integral part before it, fractional part after it.
        let fl = n - i - 1;
        if i == 0 || fl == 0 || fl > 6 {
            return None;
        }
        let ghost ip = t@.take(i as int);
        let ghost fp = t@.skip(i + 1);
        proof {
            assert(t@.subrange(0, i as int) =~= ip);
            assert(t@.subrange(i + 1, n as int) =~= fp);
        }
        let w = match parse_digits(t, 0, i) {
            Some(w) => w,
            None => {
                proof {
                    if all_digits(ip) && digits_val(ip) * (SCALE as nat) + digits_val(fp)
                        * frac_scale(fp.len()) <= u64::MAX {
                        lemma_mul_at_least(digits_val(ip), SCALE as nat);
                    }
                }
                return None;
            },
        };
        let f = match parse_digits(t, i + 1, n) {
            Some(f) => f,
            None => {
                proof {
                    lemma_pow10_pos((6 - fp.len()) as nat);
                    if all_digits(fp) && digits_val(ip) * (SCALE as nat) + digits_val(fp)
                        * frac_scale(fp.len()) <= u64::MAX {
                        lemma_mul_at_least(digits_val(fp), frac_scale(fp.len()));
                    }
                }
                return None;
            },
        };
        let scale = pow10_small(6 - fl);
        proof {
            lemma_mul_upper_bound(w as int, u64::MAX as int, SCALE as int, SCALE as int);
            lemma_mul_upper_bound(f as int, u64::MAX as int, scale as int, 1000000);
        }
        let u: u128 = (w as u128) * (SCALE as u128) + (f as u128) * (scale as u128);
        if u > u64::MAX as u128 {
            return None;
        }
        Some(Fixed { units: u as u64 })
    }
}

/// The canonical text of a value parses back to exactly that value, and
/// contains no separator character.
pub proof fn lemma_number_text_round_trip(u: nat)
    requires
        u <= u64::MAX,
    ensures
        number_ok(number_text(u)),
        number_units(number_text(u)) == u,
        forall|i: int|
            0 <= i < number_text(u).len() ==> #[trigger] number_text(u)[i] != ',',
{
    let sc = SCALE as nat;
    let ip = dec_digits(u / sc);
    let fp = fixed_width(u % sc, 6);
    let t = number_text(u);
    lemma_dec_digits(u / sc);
    lemma_fixed_width(u % sc, 6);
    reveal_with_fuel(pow10, 8);
    assert(pow10(6) == 1000000);
    lemma_small_mod(u % sc, pow10(6));
    assert(digits_val(fp) == u % sc);
    assert(t =~= ip + seq!['.'] + fp);
    assert(forall|j: int| 0 <= j < ip.len() ==> t[j] == ip[j]);
    assert(forall|j: int| 0 <= j < ip.len() ==> t[j] != '.');
    assert(t[ip.len() as int] == '.');
    lemma_find_char_at(t, '.', ip.len() as int);
    assert(t.take(ip.len() as int) =~= ip);
    assert(t.skip(ip.len() as int + 1) =~= fp);
    assert(frac_scale(6) == 1);
    lemma_fundamental_div_mod(u as int, SCALE as int);
    assert(digits_val(ip) * sc + digits_val(fp) * 1 == u);
    assert(forall|i: int| 0 <= i < t.len() ==> #[trigger] t[i] != ',') by {
        assert(forall|j: int| 0 <= j < ip.len() ==> is_digit(#[trigger] ip[j]));
        assert(forall|j: int| 0 <= j < fp.len() ==> is_digit(#[trigger] fp[j]));
    }
}

} // verus!
