//! Character-level helpers shared by the header scanner and the record
//! decoder: character classes, ASCII case folding, and conversion between
//! `&str` and `Vec<char>`.
//!
//! The decoder works over the ASCII output of the system `ps` command, so
//! whitespace means space or tab, labels are ASCII alphanumeric runs, and
//! case folding touches only the ASCII uppercase letters.

use vstd::prelude::*;

verus! {

/// Characters that separate columns: space and horizontal tab.
pub open spec fn is_space_char(c: char) -> bool {
    c == ' ' || c == '\t'
}

/// Characters that may form a header label: ASCII letters and digits.
pub open spec fn is_label_char(c: char) -> bool {
    ('a' <= c && c <= 'z') || ('A' <= c && c <= 'Z') || ('0' <= c && c <= '9')
}

/// ASCII decimal digits.
pub open spec fn is_digit_char(c: char) -> bool {
    '0' <= c && c <= '9'
}

/// ASCII case folding of one character.
pub open spec fn lower_char(c: char) -> char {
    if 'A' <= c && c <= 'Z' {
        ((c as u8) + 32) as char
    } else {
        c
    }
}

/// ASCII case folding of a whole sequence.
pub open spec fn lower_seq(s: Seq<char>) -> Seq<char> {
    s.map_values(|c: char| lower_char(c))
}

pub fn space_char(c: char) -> (r: bool)
    ensures
        r == is_space_char(c),
{
    c == ' ' || c == '\t'
}

pub fn label_char(c: char) -> (r: bool)
    ensures
        r == is_label_char(c),
{
    ('a' <= c && c <= 'z') || ('A' <= c && c <= 'Z') || ('0' <= c && c <= '9')
}

pub fn digit_char(c: char) -> (r: bool)
    ensures
        r == is_digit_char(c),
{
    '0' <= c && c <= '9'
}

pub fn to_lower(c: char) -> (r: char)
    ensures
        r == lower_char(c),
{
    if 'A' <= c && c <= 'Z' {
        ((c as u8) + 32) as char
    } else {
        c
    }
}

/// Relies on String::push: appends the given character to the end of the
/// string.
#[verifier::external_body]
pub(crate) fn push_char(s: &mut String, c: char)
    ensures
        final(s)@ == old(s)@.push(c),
{
    s.push(c)
}

/// A freshly allocated string holding exactly the given characters.
pub fn string_from_chars(v: &Vec<char>) -> (s: String)
    ensures
        s@ == v@,
{
    let mut s = String::new();
    let mut i: usize = 0;
    while i < v.len()
        invariant
            i <= v@.len(),
            s@ == v@.subrange(0, i as int),
        decreases v@.len() - i,
    {
        push_char(&mut s, v[i]);
        i += 1;
        proof {
            assert(s@ =~= v@.subrange(0, i as int));
        }
    }
    proof {
        assert(s@ =~= v@);
    }
    s
}

/// The characters of a string, as an indexable vector.
pub fn chars_of(s: &str) -> (v: Vec<char>)
    ensures
        v@ == s@,
{
    let n: usize = s.unicode_len();
    let mut v: Vec<char> = Vec::new();
    let mut i: usize = 0;
    while i < n
        invariant
            n == s@.len(),
            i <= n,
            v@ == s@.subrange(0, i as int),
        decreases n - i,
    {
        v.push(s.get_char(i));
        i += 1;
        proof {
            assert(v@ =~= s@.subrange(0, i as int));
        }
    }
    proof {
        assert(v@ =~= s@);
    }
    v
}

/// Index of the first non-space character at or after `i`, or the length of
/// `s` when only spaces remain.
pub open spec fn first_nonspace(s: Seq<char>, i: int) -> int
    decreases s.len() - i,
{
    if i < 0 || i >= s.len() {
        s.len() as int
    } else if !is_space_char(s[i]) {
        i
    } else {
        first_nonspace(s, i + 1)
    }
}

/// End (exclusive) of the last non-space character strictly before `j`, or 0
/// when only spaces precede `j`.
pub open spec fn last_nonspace_end(s: Seq<char>, j: int) -> int
    decreases j,
{
    if j <= 0 || j > s.len() {
        0
    } else if !is_space_char(s[j - 1]) {
        j
    } else {
        last_nonspace_end(s, j - 1)
    }
}

/// `s` without its leading and trailing spaces and tabs.
pub open spec fn spec_trim(s: Seq<char>) -> Seq<char> {
    let lo = first_nonspace(s, 0);
    let hi = last_nonspace_end(s, s.len() as int);
    if lo <= hi {
        s.subrange(lo, hi)
    } else {
        Seq::empty()
    }
}

/// A fresh vector holding `v[a..b]`.
pub fn slice_chars(v: &Vec<char>, a: usize, b: usize) -> (t: Vec<char>)
    requires
        a <= b <= v@.len(),
    ensures
        t@ == v@.subrange(a as int, b as int),
{
    let mut t: Vec<char> = Vec::new();
    let mut i: usize = a;
    while i < b
        invariant
            a <= i <= b <= v@.len(),
            t@ == v@.subrange(a as int, i as int),
        decreases b - i,
    {
        t.push(v[i]);
        i += 1;
        proof {
            assert(t@ =~= v@.subrange(a as int, i as int));
        }
    }
    t
}

/// Copy of `v` without its leading and trailing spaces and tabs.
pub fn trim_chars(v: &Vec<char>) -> (t: Vec<char>)
    ensures
        t@ == spec_trim(v@),
{
    let n: usize = v.len();
    let mut lo: usize = 0;
    while lo < n && space_char(v[lo])
        invariant
            lo <= n == v@.len(),
            first_nonspace(v@, 0) == first_nonspace(v@, lo as int),
        decreases n - lo,
    {
        lo += 1;
    }
    let mut hi: usize = n;
    while hi > 0 && space_char(v[hi - 1])
        invariant
            hi <= n == v@.len(),
            last_nonspace_end(v@, n as int) == last_nonspace_end(v@, hi as int),
        decreases hi,
    {
        hi -= 1;
    }
    assert(first_nonspace(v@, lo as int) == lo as int || first_nonspace(v@, lo as int) == v@.len());
    assert(last_nonspace_end(v@, hi as int) == hi as int || last_nonspace_end(v@, hi as int) == 0);
    if lo <= hi {
        slice_chars(v, lo, hi)
    } else {
        proof {
            assert(spec_trim(v@) =~= Seq::<char>::empty());
        }
        Vec::new()
    }
}

/// Splitting `s` on `sep`, read from position `i` with `cur` the piece
/// gathered since the last separator.
pub open spec fn split_acc(s: Seq<char>, sep: char, i: int, cur: Seq<char>) -> Seq<Seq<char>>
    decreases s.len() - i,
{
    if i < 0 || i >= s.len() {
        seq![cur]
    } else if s[i] == sep {
        seq![cur] + split_acc(s, sep, i + 1, Seq::empty())
    } else {
        split_acc(s, sep, i + 1, cur.push(s[i]))
    }
}

/// The pieces of `s` between occurrences of `sep`: always one more piece
/// than there are separators, pieces may be empty.
pub open spec fn split_on(s: Seq<char>, sep: char) -> Seq<Seq<char>> {
    split_acc(s, sep, 0, Seq::empty())
}

/// The pieces of `v` between occurrences of `sep`.
pub fn split_chars(v: &Vec<char>, sep: char) -> (parts: Vec<Vec<char>>)
    ensures
        parts@.map_values(|p: Vec<char>| p@) == split_on(v@, sep),
        parts@.len() >= 1,
{
    let n: usize = v.len();
    let mut parts: Vec<Vec<char>> = Vec::new();
    let mut cur: Vec<char> = Vec::new();
    let mut i: usize = 0;
    while i < n
        invariant
            i <= n == v@.len(),
            split_on(v@, sep) == parts@.map_values(|p: Vec<char>| p@) + split_acc(
                v@,
                sep,
                i as int,
                cur@,
            ),
        decreases n - i,
    {
        let c = v[i];
        if c == sep {
            let done = cur;
            cur = Vec::new();
            parts.push(done);
            proof {
                assert(parts@.map_values(|p: Vec<char>| p@) =~= parts@.drop_last().map_values(
                    |p: Vec<char>| p@,
                ) + seq![done@]);
            }
        } else {
            cur.push(c);
        }
        i += 1;
    }
    let done = cur;
    parts.push(done);
    proof {
        assert(parts@.map_values(|p: Vec<char>| p@) =~= parts@.drop_last().map_values(
            |p: Vec<char>| p@,
        ) + seq![done@]);
        assert(parts@.map_values(|p: Vec<char>| p@) =~= split_on(v@, sep));
    }
    parts
}

/// A line without its trailing carriage return, if it had one.
pub open spec fn strip_cr(l: Seq<char>) -> Seq<char> {
    if l.len() > 0 && l.last() == '\r' {
        l.drop_last()
    } else {
        l
    }
}

/// The lines of `s`: the pieces between newlines, each without a trailing
/// carriage return, and without the empty piece a final newline would
/// otherwise leave behind.
pub open spec fn spec_lines(s: Seq<char>) -> Seq<Seq<char>> {
    let p = split_on(s, '\n');
    let q = if p.last().len() == 0 {
        p.drop_last()
    } else {
        p
    };
    q.map_values(|l: Seq<char>| strip_cr(l))
}

/// The lines of `v`, as fresh vectors.
pub fn split_lines(v: &Vec<char>) -> (r: Vec<Vec<char>>)
    ensures
        r@.map_values(|l: Vec<char>| l@) == spec_lines(v@),
{
    let mut parts = split_chars(v, '\n');
    let ghost p = parts@.map_values(|x: Vec<char>| x@);
    if parts[parts.len() - 1].len() == 0 {
        parts.pop();
        proof {
            assert(parts@.map_values(|x: Vec<char>| x@) =~= p.drop_last());
        }
    }
    let ghost q = parts@.map_values(|x: Vec<char>| x@);
    proof {
        assert(spec_lines(v@) == q.map_values(|l: Seq<char>| strip_cr(l)));
    }
    let mut out: Vec<Vec<char>> = Vec::new();
    let mut i: usize = 0;
    while i < parts.len()
        invariant
            i <= parts@.len(),
            q == parts@.map_values(|x: Vec<char>| x@),
            out@.len() == i,
            forall|k: int| 0 <= k < i ==> #[trigger] out@[k]@ == strip_cr(q[k]),
        decreases parts@.len() - i,
    {
        let pi = &parts[i];
        let n = pi.len();
        let m = if n > 0 && pi[n - 1] == '\r' {
            n - 1
        } else {
            n
        };
        proof {
            assert(q[i as int] == parts@[i as int]@);
            assert(pi@.subrange(0, m as int) =~= strip_cr(q[i as int]));
        }
        out.push(slice_chars(pi, 0, m));
        i += 1;
    }
    proof {
        assert(out@.map_values(|l: Vec<char>| l@) =~= q.map_values(|l: Seq<char>| strip_cr(l)));
    }
    out
}

} // verus!
