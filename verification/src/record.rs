//! Comma-separated records: the token splitter every decoder shares, and the
//! positional-field conventions (a missing numeric field reads as zero, a
//! missing name as the empty label, a malformed numeric field is an error).

use vstd::prelude::*;
use crate::fixed::Fixed;
use crate::numeral::{number_ok, number_units, parse_number};

verus! {

/// The one recoverable decode failure: a numeric field was present but was
/// not a well-formed in-range numeral.
#[derive(Clone, Copy, PartialEq, Eq, Structural, Debug)]
pub enum DecodeError {
    InvalidNumber,
}

impl DecodeError {
    /// A short human-readable account of the failure.
    pub fn message(&self) -> (r: &'static str)
        ensures
            r@ == "decode failed: invalid numeric field"@,
    {
        "decode failed: invalid numeric field"
    }
}

/// Split `s` at every occurrence of `c`: always one token more than there
/// are separators, so the empty string yields one empty token.
pub open spec fn split_on(s: Seq<char>, c: char) -> Seq<Seq<char>>
    decreases s.len(),
{
    if s.len() == 0 {
        seq![s]
    } else if s[0] == c {
        seq![Seq::<char>::empty()] + split_on(s.drop_first(), c)
    } else {
        let r = split_on(s.drop_first(), c);
        seq![seq![s[0]] + r[0]] + r.drop_first()
    }
}

/// Splitting yields at least one token.
pub proof fn lemma_split_on_len(s: Seq<char>, c: char)
    ensures
        split_on(s, c).len() >= 1,
    decreases s.len(),
{
    if s.len() != 0 && s[0] != c {
        lemma_split_on_len(s.drop_first(), c);
    }
}

/// A string free of the separator is a single token.
pub proof fn lemma_split_on_no_sep(s: Seq<char>, c: char)
    requires
        forall|j: int| 0 <= j < s.len() ==> s[j] != c,
    ensures
        split_on(s, c) == seq![s],
    decreases s.len(),
{
    if s.len() == 0 {
    } else {
        let t = s.drop_first();
        lemma_split_on_no_sep(t, c);
        let r = split_on(t, c);
        assert(r == seq![t]);
        assert(r.drop_first() =~~= Seq::<Seq<char>>::empty());
        assert(seq![s[0]] + r[0] =~= s);
        assert(split_on(s, c) =~~= seq![s]);
    }
}

/// Splitting a string whose first separator closes the token `a` yields `a`
/// followed by the split of the remainder.
pub proof fn lemma_split_on_sep(a: Seq<char>, b: Seq<char>, c: char)
    requires
        forall|j: int| 0 <= j < a.len() ==> a[j] != c,
    ensures
        split_on(a + seq![c] + b, c) == seq![a] + split_on(b, c),
    decreases a.len(),
{
    let s = a + seq![c] + b;
    if a.len() == 0 {
        assert(s[0] == c);
        assert(s.drop_first() =~= b);
        assert(seq![Seq::<char>::empty()] + split_on(b, c) =~~= seq![a] + split_on(b, c));
    } else {
        assert(s.len() != 0 && s[0] == a[0] && s[0] != c);
        let t = a.drop_first();
        assert(s.drop_first() =~= t + seq![c] + b);
        lemma_split_on_sep(t, b, c);
        let r = split_on(s.drop_first(), c);
        assert(r == seq![t] + split_on(b, c));
        lemma_split_on_len(b, c);
        assert(r[0] == t);
        assert(r.drop_first() =~~= split_on(b, c));
        assert(seq![s[0]] + r[0] =~= a);
        assert(split_on(s, c) =~~= seq![a] + split_on(b, c));
    }
}

/// If the first separator at or after the start of `s` sits at `i` (or `s`
/// has none and `i` is its length), the split starts with `s.take(i)`.
pub proof fn lemma_split_on_head(s: Seq<char>, c: char, i: int)
    requires
        0 <= i <= s.len(),
        forall|j: int| 0 <= j < i ==> s[j] != c,
        i < s.len() ==> s[i] == c,
    ensures
        i == s.len() ==> split_on(s, c) == seq![s],
        i < s.len() ==> split_on(s, c) == seq![s.take(i)] + split_on(s.skip(i + 1), c),
{
    if i == s.len() {
        lemma_split_on_no_sep(s, c);
    } else {
        let a = s.take(i);
        let b = s.skip(i + 1);
        assert(forall|j: int| 0 <= j < a.len() ==> a[j] != c);
        assert(s =~= a + seq![c] + b);
        lemma_split_on_sep(a, b, c);
    }
}

/// Split a record into its comma-separated tokens.
pub fn split_commas(s: &str) -> (v: Vec<String>)
    ensures
        v.deep_view() == split_on(s@, ','),
{
    let n = s.unicode_len();
    let mut v: Vec<String> = Vec::new();
    let mut start: usize = 0;
    proof {
        assert(s@.skip(0) =~= s@);
        assert(v.deep_view() =~~= Seq::<Seq<char>>::empty());
        assert(split_on(s@, ',') =~~= v.deep_view() + split_on(s@.skip(0), ','));
    }
    loop
        invariant_except_break
            start <= n == s@.len(),
            split_on(s@, ',') == v.deep_view() + split_on(s@.skip(start as int), ','),
        ensures
            v.deep_view() == split_on(s@, ','),
        decreases n - start,
    {
        let mut k: usize = start;
        while k < n && s.get_char(k) != ','
            invariant
                start <= k <= n == s@.len(),
                forall|j: int| start <= j < k ==> s@[j] != ',',
            decreases n - k,
        {
            k = k + 1;
        }
        let tok = s.substring_char(start, k);
        let ghost old_view = v.deep_view();
        v.push(String::from_str(tok));
        proof {
            let rest = s@.skip(start as int);
            assert(forall|j: int| 0 <= j < k - start ==> rest[j] != ',') by {
                assert(forall|j: int| 0 <= j < k - start ==> rest[j] == s@[start + j]);
            }
            assert(k < n ==> rest[k - start] == s@[k as int]);
            lemma_split_on_head(rest, ',', k - start as int);
            assert(rest.take(k - start as int) =~= tok@);
            assert(v.deep_view() =~~= old_view + seq![tok@]);
        }
        if k == n {
            proof {
                assert(s@.skip(start as int).take(k - start as int) =~= s@.skip(start as int));
                assert(v.deep_view() =~~= split_on(s@, ','));
            }
            break;
        }
        proof {
            assert(s@.skip(start as int).skip(k - start as int + 1) =~= s@.skip(k + 1));
            assert(v.deep_view() + split_on(s@.skip(k + 1), ',') =~~= split_on(s@, ','));
        }
        start = k + 1;
    }
    v
}

/// The numeric field at position `i` is acceptable: either absent, or a
/// well-formed in-range numeral.
pub open spec fn num_field_ok(toks: Seq<Seq<char>>, i: int) -> bool {
    i >= toks.len() || number_ok(toks[i])
}

/// The value of the numeric field at position `i`, in micro-units; an
/// absent field reads as zero.
pub open spec fn num_field_units(toks: Seq<Seq<char>>, i: int) -> int {
    if i < toks.len() {
        number_units(toks[i])
    } else {
        0
    }
}

/// The name field at position `i`; an absent field reads as the empty label.
pub open spec fn name_field(toks: Seq<Seq<char>>, i: int) -> Seq<char> {
    if i < toks.len() {
        toks[i]
    } else {
        Seq::empty()
    }
}

/// Read the numeric field at position `i` of a split record: the parsed
/// value, zero when the field is absent, nothing when it is malformed.
pub fn num_field(toks: &Vec<String>, i: usize) -> (r: Option<Fixed>)
    ensures
        match r {
            Some(v) => {
                &&& num_field_ok(toks.deep_view(), i as int)
                &&& v.units == num_field_units(toks.deep_view(), i as int)
            },
            None => !num_field_ok(toks.deep_view(), i as int),
        },
{
    if i < toks.len() {
        proof {
            assert(toks.deep_view()[i as int] == toks@[i as int]@);
        }
        parse_number(toks[i].as_str())
    } else {
        Some(Fixed { units: 0 })
    }
}

/// Read the name field at position `i` of a split record; an absent field
/// reads as the empty label.
pub fn text_field(toks: &Vec<String>, i: usize) -> (r: String)
    ensures
        r@ == name_field(toks.deep_view(), i as int),
{
    if i < toks.len() {
        proof {
            assert(toks.deep_view()[i as int] == toks@[i as int]@);
        }
        toks[i].clone()
    } else {
        String::new()
    }
}

} // verus!
