//! The header scanner: turns the first line of listing output into an
//! ordered sequence of (field, column range) pairs.
//!
//! The boundary rule: a field's printed region starts where the previous
//! label's region ended (0 for the first) and ends at the column just after
//! its own label.  The whitespace gap before a label therefore belongs to
//! that label's field, which reproduces the tool's right-aligned numeric
//! columns losslessly.  Unrecognized labels produce no entry but still move
//! the running end-column, so they do not corrupt later boundaries.

use vstd::prelude::*;
use crate::field::{spec_label_to_field, Field};
use crate::text::{chars_of, is_label_char, is_space_char, label_char, lower_seq, slice_chars,
    string_from_chars};

verus! {

/// A half-open column range `[start_col, end_col)` over one line,
/// zero-indexed; meaningful only relative to the line it was computed from.
#[derive(Clone, Copy, Debug, PartialEq, Eq, Structural)]
pub struct Position {
    pub start_col: usize,
    pub end_col: usize,
}

/// One recognized column: a field paired with its printed region.
#[derive(Clone, Copy, Debug, PartialEq, Eq, Structural)]
pub struct Header {
    pub field: Field,
    pub position: Position,
}

impl Position {
    pub fn new(start_col: usize, end_col: usize) -> (p: Position)
        ensures
            p.start_col == start_col,
            p.end_col == end_col,
    {
        Position { start_col, end_col }
    }
}

impl Header {
    pub fn new(field: Field, position: Position) -> (h: Header)
        ensures
            h.field == field,
            h.position == position,
    {
        Header { field, position }
    }
}

/// End (exclusive) of the maximal label-character run starting at `i`.
pub open spec fn token_end(s: Seq<char>, i: int) -> int
    decreases s.len() - i,
{
    if i < 0 || i >= s.len() || !is_label_char(s[i]) {
        i
    } else {
        token_end(s, i + 1)
    }
}

/// The entry (if any) for the label `s[ts..te)`, whose printed region began
/// where the previous label ended (`last_end`).
pub open spec fn scan_emit(s: Seq<char>, ts: int, te: int, last_end: int) -> Seq<
    (Field, int, int),
> {
    match spec_label_to_field(lower_seq(s.subrange(ts, te))) {
        Some(f) => seq![(f, last_end, te)],
        None => seq![],
    }
}

/// The scan of `s` from position `i`: `last_end` is the column where the
/// last label ended, `tok` the start of the label being read, if one is.
pub open spec fn scan_from(s: Seq<char>, i: int, last_end: int, tok: Option<int>) -> Seq<
    (Field, int, int),
>
    decreases s.len() - i,
{
    if i < 0 || i >= s.len() {
        match tok {
            Some(ts) => scan_emit(s, ts, s.len() as int, last_end),
            None => Seq::empty(),
        }
    } else if is_label_char(s[i]) {
        scan_from(s, i + 1, last_end, if tok is Some {
            tok
        } else {
            Some(i)
        })
    } else {
        match tok {
            Some(ts) => scan_emit(s, ts, i, last_end) + scan_from(s, i + 1, i, None),
            None => scan_from(s, i + 1, last_end, None),
        }
    }
}

/// The full scan of one header line.
pub open spec fn scan_spec(s: Seq<char>) -> Seq<(Field, int, int)> {
    scan_from(s, 0, 0, None)
}

/// The (field, start, end) triples a vector of headers holds.
pub open spec fn header_triples(hs: Seq<Header>) -> Seq<(Field, int, int)> {
    hs.map_values(
        |h: Header| (h.field, h.position.start_col as int, h.position.end_col as int),
    )
}

pub proof fn lemma_token_end_props(s: Seq<char>, i: int)
    requires
        0 <= i <= s.len(),
    ensures
        i <= token_end(s, i) <= s.len(),
        forall|k: int| i <= k < token_end(s, i) ==> is_label_char(s[k]),
        token_end(s, i) < s.len() ==> !is_label_char(s[token_end(s, i)]),
        i < s.len() && is_label_char(s[i]) ==> token_end(s, i) > i,
    decreases s.len() - i,
{
    if i < s.len() && is_label_char(s[i]) {
        lemma_token_end_props(s, i + 1);
    }
}

/// Reading one whole label `s[ts..te)` from inside the token emits its
/// entry and leaves the scan just after the token with the running
/// end-column moved to `te`.
proof fn lemma_scan_token_inner(s: Seq<char>, ts: int, i: int, te: int, last_end: int)
    requires
        0 <= ts <= i <= te <= s.len(),
        forall|k: int| i <= k < te ==> is_label_char(s[k]),
        te == s.len() || !is_label_char(s[te]),
    ensures
        scan_from(s, i, last_end, Some(ts)) == scan_emit(s, ts, te, last_end) + scan_from(
            s,
            te,
            te,
            None,
        ),
    decreases te - i,
{
    if i == te {
        if te == s.len() {
            assert(scan_from(s, te, te, None) =~= Seq::<(Field, int, int)>::empty());
            assert(scan_from(s, i, last_end, Some(ts)) =~= scan_emit(s, ts, te, last_end));
        } else {
        }
    } else {
        lemma_scan_token_inner(s, ts, i + 1, te, last_end);
    }
}

/// Reading one whole label from its first character.
pub proof fn lemma_scan_token(s: Seq<char>, ts: int, last_end: int)
    requires
        0 <= ts < s.len(),
        is_label_char(s[ts]),
    ensures
        scan_from(s, ts, last_end, None) == scan_emit(
            s,
            ts,
            token_end(s, ts),
            last_end,
        ) + scan_from(s, token_end(s, ts), token_end(s, ts), None),
{
    lemma_token_end_props(s, ts);
    lemma_scan_token_inner(s, ts, ts + 1, token_end(s, ts), last_end);
}

/// The entries are chained: each spans a well-formed region at or after
/// `lo` and within a line of length `len`, and each starts no earlier than
/// the one before it ended — so they are sorted by ascending start and do
/// not overlap.
pub open spec fn entries_chained(es: Seq<(Field, int, int)>, lo: int, len: int) -> bool
    decreases es.len(),
{
    if es.len() == 0 {
        true
    } else {
        lo <= es[0].1 <= es[0].2 <= len && entries_chained(es.drop_first(), es[0].2, len)
    }
}

proof fn lemma_scan_from_chained(s: Seq<char>, i: int, last_end: int, tok: Option<int>)
    requires
        0 <= i <= s.len(),
        match tok {
            Some(ts) => 0 <= last_end <= ts <= i,
            None => 0 <= last_end <= i,
        },
    ensures
        entries_chained(scan_from(s, i, last_end, tok), last_end, s.len() as int),
    decreases s.len() - i,
{
    if i >= s.len() {
        if tok is Some {
            let one = scan_emit(s, tok->Some_0, s.len() as int, last_end);
            assert(entries_chained(
                Seq::<(Field, int, int)>::empty(),
                s.len() as int,
                s.len() as int,
            ));
            if one.len() > 0 {
                assert(one.drop_first() =~= Seq::<(Field, int, int)>::empty());
            }
        }
    } else if is_label_char(s[i]) {
        lemma_scan_from_chained(s, i + 1, last_end, if tok is Some {
            tok
        } else {
            Some(i)
        });
    } else {
        match tok {
            Some(ts) => {
                lemma_scan_from_chained(s, i + 1, i, None);
                let one = scan_emit(s, ts, i, last_end);
                let rest = scan_from(s, i + 1, i, None);
                if one.len() > 0 {
                    assert((one + rest).drop_first() =~= rest);
                } else {
                    assert(one + rest =~= rest);
                    lemma_chained_weaken(rest, i, last_end, s.len() as int);
                }
            },
            None => {
                lemma_scan_from_chained(s, i + 1, last_end, None);
            },
        }
    }
}

/// Chained entries stay chained from any earlier lower bound.
proof fn lemma_chained_weaken(es: Seq<(Field, int, int)>, lo: int, lo2: int, len: int)
    requires
        entries_chained(es, lo, len),
        lo2 <= lo,
    ensures
        entries_chained(es, lo2, len),
    decreases es.len(),
{
    if es.len() > 0 {
        lemma_chained_weaken(es.drop_first(), es[0].2, es[0].2, len);
    }
}

/// The scan of any line yields chained entries: positions start at or after
/// column 0, end within the line, each `start_col` at most its `end_col`,
/// and consecutive entries meet without overlap.
pub proof fn lemma_scan_spec_chained(s: Seq<char>)
    ensures
        entries_chained(scan_spec(s), 0, s.len() as int),
{
    lemma_scan_from_chained(s, 0, 0, None);
}

/// Only column-separating characters.
pub open spec fn all_space(w: Seq<char>) -> bool {
    forall|k: int| 0 <= k < w.len() ==> is_space_char(#[trigger] w[k])
}

/// A header line as the listing tool prints one: a whitespace gap (the
/// first possibly empty, the rest non-empty) before each label, labels
/// whose canonical spelling is a single token, and a trailing gap.
pub open spec fn header_parts_wf(parts: Seq<(Seq<char>, Field)>, first: bool) -> bool
    decreases parts.len(),
{
    if parts.len() == 0 {
        true
    } else {
        all_space(parts[0].0) && (first || parts[0].0.len() > 0) && crate::field::spec_has_one_ident(
            parts[0].1,
        ) && header_parts_wf(parts.drop_first(), false)
    }
}

/// The text such a header line consists of.
pub open spec fn build_header_line(parts: Seq<(Seq<char>, Field)>, trailing: Seq<char>) -> Seq<
    char,
>
    decreases parts.len(),
{
    if parts.len() == 0 {
        trailing
    } else {
        parts[0].0 + crate::field::spec_field_label(parts[0].1) + build_header_line(
            parts.drop_first(),
            trailing,
        )
    }
}

/// The entries the scan of such a line must recover: one per label, in
/// order; each entry ends at the column just after its label, and starts
/// where the entry before it ended (`last_end`, 0 for the first).
pub open spec fn expected_entries(parts: Seq<(Seq<char>, Field)>, base: int, last_end: int) -> Seq<
    (Field, int, int),
>
    decreases parts.len(),
{
    if parts.len() == 0 {
        Seq::empty()
    } else {
        let te = base + parts[0].0.len() + crate::field::spec_field_label(parts[0].1).len();
        seq![(parts[0].1, last_end, te)] + expected_entries(parts.drop_first(), te, te)
    }
}

/// The text from `off` on reads as the given gap-label pairs, then the
/// trailing gap.
pub open spec fn line_matches_parts(
    s: Seq<char>,
    off: int,
    parts: Seq<(Seq<char>, Field)>,
    trailing: Seq<char>,
) -> bool
    decreases parts.len(),
{
    if parts.len() == 0 {
        s.subrange(off, s.len() as int) == trailing
    } else {
        let glen = parts[0].0.len() as int;
        let llen = crate::field::spec_field_label(parts[0].1).len() as int;
        &&& off + glen + llen <= s.len()
        &&& s.subrange(off, off + glen) == parts[0].0
        &&& s.subrange(off + glen, off + glen + llen) == crate::field::spec_field_label(
            parts[0].1,
        )
        &&& line_matches_parts(s, off + glen + llen, parts.drop_first(), trailing)
    }
}

/// Scanning spaces moves the position and changes nothing else.
proof fn lemma_scan_spaces(s: Seq<char>, i: int, j: int, e: int)
    requires
        0 <= i <= j <= s.len(),
        forall|k: int| i <= k < j ==> is_space_char(#[trigger] s[k]),
    ensures
        scan_from(s, i, e, None) == scan_from(s, j, e, None),
    decreases j - i,
{
    if i < j {
        lemma_scan_spaces(s, i + 1, j, e);
    }
}

/// A run of label characters bounded by a non-label character (or the end
/// of the line) is exactly one token.
proof fn lemma_token_end_exact(s: Seq<char>, i: int, te: int)
    requires
        0 <= i <= te <= s.len(),
        forall|k: int| i <= k < te ==> is_label_char(#[trigger] s[k]),
        te == s.len() || !is_label_char(s[te]),
    ensures
        token_end(s, i) == te,
    decreases te - i,
{
    if i < te {
        lemma_token_end_exact(s, i + 1, te);
    }
}

/// A single-token canonical label is a non-empty run of label characters.
proof fn lemma_label_chars(f: Field)
    requires
        crate::field::spec_has_one_ident(f),
    ensures
        crate::field::spec_field_label(f).len() >= 1,
        forall|k: int|
            0 <= k < crate::field::spec_field_label(f).len() ==> is_label_char(
                #[trigger] crate::field::spec_field_label(f)[k],
            ),
{
}

/// Right after a label, the line shows a column separator or ends: the gap
/// before any further label is non-empty, and the trailing gap is spaces.
proof fn lemma_matches_boundary(
    s: Seq<char>,
    off: int,
    parts: Seq<(Seq<char>, Field)>,
    trailing: Seq<char>,
)
    requires
        0 <= off <= s.len(),
        header_parts_wf(parts, false),
        all_space(trailing),
        line_matches_parts(s, off, parts, trailing),
    ensures
        off == s.len() || !is_label_char(s[off]),
{
    if parts.len() == 0 {
        if off < s.len() {
            assert(s.subrange(off, s.len() as int)[0] == s[off]);
            assert(is_space_char(trailing[0]));
        }
    } else {
        assert(parts[0].0.len() > 0);
        assert(s.subrange(off, off + parts[0].0.len() as int)[0] == s[off]);
        assert(is_space_char(parts[0].0[0]));
    }
}

/// The scan from `off` over text that reads as gap-label pairs recovers
/// exactly the expected entries.
proof fn lemma_scan_matches(
    s: Seq<char>,
    off: int,
    e: int,
    parts: Seq<(Seq<char>, Field)>,
    trailing: Seq<char>,
    first: bool,
)
    requires
        0 <= off <= s.len(),
        header_parts_wf(parts, first),
        all_space(trailing),
        line_matches_parts(s, off, parts, trailing),
    ensures
        scan_from(s, off, e, None) == expected_entries(parts, off, e),
    decreases parts.len(),
{
    if parts.len() == 0 {
        assert forall|k: int| off <= k < s.len() implies is_space_char(#[trigger] s[k]) by {
            assert(s.subrange(off, s.len() as int)[k - off] == s[k]);
            assert(is_space_char(trailing[k - off]));
        }
        lemma_scan_spaces(s, off, s.len() as int, e);
    } else {
        let gap = parts[0].0;
        let f = parts[0].1;
        let lab = crate::field::spec_field_label(f);
        let off2 = off + gap.len();
        let te = off2 + lab.len();
        let dp = parts.drop_first();
        lemma_label_chars(f);
        assert forall|k: int| off <= k < off2 implies is_space_char(#[trigger] s[k]) by {
            assert(s.subrange(off, off2)[k - off] == s[k]);
            assert(is_space_char(gap[k - off]));
        }
        lemma_scan_spaces(s, off, off2, e);
        assert forall|k: int| off2 <= k < te implies is_label_char(#[trigger] s[k]) by {
            assert(s.subrange(off2, te)[k - off2] == s[k]);
            assert(is_label_char(lab[k - off2]));
        }
        lemma_matches_boundary(s, te, dp, trailing);
        lemma_token_end_exact(s, off2, te);
        lemma_scan_token(s, off2, e);
        assert(s.subrange(off2, te) == lab);
        crate::field::lemma_label_round_trip(f);
        assert(scan_emit(s, off2, te, e) == seq![(f, e, te)]);
        lemma_scan_matches(s, te, te, dp, trailing, false);
        assert(scan_from(s, off, e, None) =~= expected_entries(parts, off, e));
    }
}

/// The built line matches itself, read from the start.
proof fn lemma_build_matches(
    s: Seq<char>,
    off: int,
    parts: Seq<(Seq<char>, Field)>,
    trailing: Seq<char>,
)
    requires
        0 <= off <= s.len(),
        s.subrange(off, s.len() as int) == build_header_line(parts, trailing),
    ensures
        line_matches_parts(s, off, parts, trailing),
    decreases parts.len(),
{
    if parts.len() == 0 {
    } else {
        let gap = parts[0].0;
        let lab = crate::field::spec_field_label(parts[0].1);
        let rest = build_header_line(parts.drop_first(), trailing);
        let glen = gap.len() as int;
        let llen = lab.len() as int;
        let te = off + glen + llen;
        let whole = s.subrange(off, s.len() as int);
        assert(whole == gap + lab + rest);
        assert(whole.len() == glen + llen + rest.len());
        assert(s.subrange(off, off + glen) =~= gap) by {
            assert forall|k: int| 0 <= k < glen implies s.subrange(off, off + glen)[k] == gap[k] by {
                assert(s.subrange(off, off + glen)[k] == s[off + k]);
                assert(whole[k] == s[off + k]);
                assert(whole[k] == (gap + lab + rest)[k]);
            }
        }
        assert(s.subrange(off + glen, te) =~= lab) by {
            assert forall|k: int| 0 <= k < llen implies s.subrange(off + glen, te)[k] == lab[k] by {
                assert(s.subrange(off + glen, te)[k] == s[off + glen + k]);
                assert(whole[glen + k] == s[off + glen + k]);
                assert(whole[glen + k] == (gap + lab + rest)[glen + k]);
            }
        }
        assert(s.subrange(te, s.len() as int) =~= rest) by {
            assert forall|k: int| 0 <= k < rest.len() implies s.subrange(te, s.len() as int)[k]
                == rest[k] by {
                assert(s.subrange(te, s.len() as int)[k] == s[te + k]);
                assert(whole[glen + llen + k] == s[te + k]);
                assert(whole[glen + llen + k] == (gap + lab + rest)[glen + llen + k]);
            }
        }
        lemma_build_matches(s, te, parts.drop_first(), trailing);
    }
}

/// For every header line composed of single-token catalog labels separated
/// by whitespace runs (the first possibly empty, the rest non-empty, plus a
/// trailing run), the scan recovers exactly one entry per label, in the
/// same left-to-right order; entry `i` ends at the column just after label
/// `i` and starts where entry `i - 1` ended, 0 for the first.
pub proof fn lemma_header_layout(parts: Seq<(Seq<char>, Field)>, trailing: Seq<char>)
    requires
        header_parts_wf(parts, true),
        all_space(trailing),
    ensures
        scan_spec(build_header_line(parts, trailing)) == expected_entries(parts, 0, 0),
{
    let s = build_header_line(parts, trailing);
    assert(s.subrange(0, s.len() as int) =~= s);
    lemma_build_matches(s, 0, parts, trailing);
    lemma_scan_matches(s, 0, 0, parts, trailing, true);
}

/// The scanner over one header line.  It reads the line left to right,
/// driven only by the class of the current character: column-separating
/// characters are skipped, maximal label runs are read as one token each.
pub struct Parser {
    chars: Vec<char>,
    pos: usize,
}

impl Parser {
    /// The characters of the line being scanned.
    pub closed spec fn input(&self) -> Seq<char> {
        self.chars@
    }

    /// The current scan position.
    pub closed spec fn at(&self) -> int {
        self.pos as int
    }

    /// The position never runs past the input.
    pub closed spec fn wf(&self) -> bool {
        self.pos <= self.chars@.len()
    }

    pub fn new(input: String) -> (p: Parser)
        ensures
            p.wf(),
            p.input() == input@,
            p.at() == 0,
    {
        Parser { chars: chars_of(input.as_str()), pos: 0 }
    }

    /// Step to the next character (or stay at the end of the input).
    fn read_char(&mut self)
        requires
            old(self).wf(),
        ensures
            final(self).wf(),
            final(self).input() == old(self).input(),
            final(self).at() == if old(self).at() < old(self).input().len() {
                old(self).at() + 1
            } else {
                old(self).at()
            },
    {
        if self.pos < self.chars.len() {
            self.pos += 1;
        }
    }

    /// Read the maximal run of label characters at the current position and
    /// return it; the scan is left just after the run.
    pub fn read_ident(&mut self) -> (r: String)
        requires
            old(self).wf(),
        ensures
            final(self).wf(),
            final(self).input() == old(self).input(),
            final(self).at() == token_end(old(self).input(), old(self).at()),
            r@ == old(self).input().subrange(old(self).at(), final(self).at()),
    {
        let ghost s = self.chars@;
        let start = self.pos;
        while self.pos < self.chars.len() && label_char(self.chars[self.pos])
            invariant
                self.chars@ == s,
                start <= self.pos <= s.len(),
                token_end(s, start as int) == token_end(s, self.pos as int),
            decreases s.len() - self.pos,
        {
            self.pos += 1;
        }
        string_from_chars(&slice_chars(&self.chars, start, self.pos))
    }

    /// Scan the rest of the line into the ordered header-entry sequence:
    /// one entry per recognized label, positioned by the boundary rule.
    pub fn parse(&mut self) -> (r: Vec<Header>)
        requires
            old(self).wf(),
        ensures
            final(self).wf(),
            header_triples(r@) == scan_from(old(self).input(), old(self).at(), 0, None),
    {
        let ghost s = self.chars@;
        let mut headers: Vec<Header> = Vec::new();
        let mut last_end: usize = 0;
        while self.pos < self.chars.len()
            invariant
                self.wf(),
                self.chars@ == s,
                scan_from(s, old(self).at(), 0, None) == header_triples(headers@) + scan_from(
                    s,
                    self.pos as int,
                    last_end as int,
                    None,
                ),
            decreases s.len() - self.pos,
        {
            let c = self.chars[self.pos];
            if label_char(c) {
                let ghost ts = self.pos as int;
                proof {
                    lemma_token_end_props(s, ts);
                    lemma_scan_token(s, ts, last_end as int);
                }
                let ident = self.read_ident();
                let end_col = self.pos;
                let lowered = crate::field::lower_chars_of(ident.as_str());
                match crate::field::match_lower_label(&lowered) {
                    Some(f) => {
                        let h = Header::new(f, Position::new(last_end, end_col));
                        headers.push(h);
                        proof {
                            assert(header_triples(headers@) =~= header_triples(
                                headers@.drop_last(),
                            ) + seq![(f, last_end as int, end_col as int)]);
                        }
                    },
                    None => {
                    },
                }
                last_end = end_col;
            } else {
                self.read_char();
            }
        }
        proof {
            assert(scan_from(s, self.pos as int, last_end as int, None) =~= Seq::<
                (Field, int, int),
            >::empty());
        }
        headers
    }
}

} // verus!
