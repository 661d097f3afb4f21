//! Decimal number reading: the mathematical value of a digit string and an
//! executable parser proved against it.

use vstd::prelude::*;
use crate::text::is_digit_char;

verus! {

/// Outcome of reading a digit string: its value when it fits in a `u64`, a
/// marker when it is a digit string whose value does not fit, or a marker
/// when it is not a digit string at all.
pub enum NumParse {
    Value(u64),
    TooBig,
    NotANumber,
}

/// The numeric value of one decimal digit.
pub open spec fn digit_val(c: char) -> int {
    c as int - '0' as int
}

/// Whether every character of `s` is a decimal digit.
pub open spec fn all_digits(s: Seq<char>) -> bool {
    forall|k: int| 0 <= k < s.len() ==> is_digit_char(#[trigger] s[k])
}

/// The base-10 value of a digit string (0 for the empty string).
pub open spec fn digits_val(s: Seq<char>) -> int
    decreases s.len(),
{
    if s.len() == 0 {
        0
    } else {
        digits_val(s.drop_last()) * 10 + digit_val(s.last())
    }
}

pub proof fn lemma_digits_val_nonneg(s: Seq<char>)
    requires
        all_digits(s),
    ensures
        digits_val(s) >= 0,
    decreases s.len(),
{
    if s.len() > 0 {
        assert(all_digits(s.drop_last()));
        lemma_digits_val_nonneg(s.drop_last());
    }
}

/// A digit string is worth at least any of its prefixes.
pub proof fn lemma_digits_val_prefix(s: Seq<char>, i: int)
    requires
        all_digits(s),
        0 <= i <= s.len(),
    ensures
        digits_val(s.subrange(0, i)) <= digits_val(s),
    decreases s.len() - i,
{
    if i == s.len() {
        assert(s.subrange(0, i) =~= s);
    } else {
        lemma_digits_val_prefix(s, i + 1);
        let p = s.subrange(0, i + 1);
        assert(p.drop_last() =~= s.subrange(0, i));
        assert(all_digits(s.subrange(0, i)));
        lemma_digits_val_nonneg(s.subrange(0, i));
        assert(digits_val(p) == digits_val(s.subrange(0, i)) * 10 + digit_val(p.last()));
    }
}

/// Read `v` as a base-10 number: its value when `v` is a digit string that
/// fits in a `u64`, and the exact reason otherwise.
pub fn parse_digits(v: &Vec<char>) -> (r: NumParse)
    ensures
        match r {
            NumParse::Value(x) => v@.len() > 0 && all_digits(v@) && x == digits_val(v@),
            NumParse::TooBig => v@.len() > 0 && all_digits(v@) && digits_val(v@) > u64::MAX,
            NumParse::NotANumber => !(v@.len() > 0 && all_digits(v@)),
        },
{
    let n: usize = v.len();
    if n == 0 {
        return NumParse::NotANumber;
    }
    let mut i: usize = 0;
    while i < n
        invariant
            i <= n == v@.len(),
            forall|k: int| 0 <= k < i ==> is_digit_char(#[trigger] v@[k]),
        decreases n - i,
    {
        if !crate::text::digit_char(v[i]) {
            return NumParse::NotANumber;
        }
        i += 1;
    }
    assert(all_digits(v@));
    let mut acc: u64 = 0;
    let mut j: usize = 0;
    while j < n
        invariant
            j <= n == v@.len(),
            all_digits(v@),
            acc == digits_val(v@.subrange(0, j as int)),
        decreases n - j,
    {
        let c = v[j];
        assert(is_digit_char(c));
        let d: u64 = ((c as u8) - ('0' as u8)) as u64;
        let ghost pref = v@.subrange(0, j as int);
        let ghost pref1 = v@.subrange(0, j + 1 as int);
        proof {
            assert(pref1.drop_last() =~= pref);
            assert(pref1.last() == v@[j as int]);
            assert(digits_val(pref1) == digits_val(pref) * 10 + digit_val(v@[j as int]));
        }
        let step = match acc.checked_mul(10) {
            Some(m) => m.checked_add(d),
            None => None,
        };
        match step {
            Some(next) => {
                acc = next;
                j += 1;
            },
            None => {
                proof {
                    assert(digits_val(pref1) > u64::MAX);
                    lemma_digits_val_prefix(v@, j + 1 as int);
                }
                return NumParse::TooBig;
            },
        }
    }
    proof {
        assert(v@.subrange(0, n as int) =~= v@);
    }
    NumParse::Value(acc)
}

/// Read `v` as a non-negative base-10 `u32`: `Some` exactly when `v` is a
/// non-empty digit string whose value fits.
pub fn parse_u32(v: &Vec<char>) -> (r: Option<u32>)
    ensures
        match r {
            Some(x) => v@.len() > 0 && all_digits(v@) && x == digits_val(v@),
            None => !(v@.len() > 0 && all_digits(v@) && digits_val(v@) <= u32::MAX),
        },
{
    match parse_digits(v) {
        NumParse::Value(x) => {
            if x <= u32::MAX as u64 {
                Some(x as u32)
            } else {
                None
            }
        },
        NumParse::TooBig => None,
        NumParse::NotANumber => None,
    }
}

} // verus!
