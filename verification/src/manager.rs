//! The record decoder and the listing orchestrator: slices each data line
//! at the header's column boundaries, converts every slice into a typed
//! value, and folds one whole output text into a sequence of records.

use vstd::prelude::*;
use crate::duration::{duration_seconds, spec_duration};
use crate::error::{PsError, PsErrorV};
use crate::field::{spec_has_one_ident, spec_ps_arg, spec_ps_name, Field};
use crate::header::{header_triples, scan_spec, Header, Parser};
use crate::num::{all_digits, digits_val, parse_u32};
use crate::process::{Process, ProcessV};
use crate::text::{chars_of, slice_chars, spec_lines, spec_trim, split_lines, string_from_chars,
    trim_chars};

verus! {

/// A well-formed numeric column value: a non-empty digit string whose
/// value fits the record's integer attributes.
pub open spec fn int_ok(t: Seq<char>) -> bool {
    t.len() > 0 && all_digits(t) && digits_val(t) <= u32::MAX
}

/// The printed region of one entry over a data line of length `len`: the
/// last entry's region runs to the line's own end, so an overflowing value
/// is never truncated; every bound is clamped to the line so that decoding
/// never reads outside it.
pub open spec fn entry_region(start: int, end: int, len: int, last: bool) -> (int, int) {
    let lo = if start < 0 {
        0
    } else if start > len {
        len
    } else {
        start
    };
    let hi0 = if last {
        len
    } else if end > len {
        len
    } else if end < 0 {
        0
    } else {
        end
    };
    let hi = if hi0 < lo {
        lo
    } else {
        hi0
    };
    (lo, hi)
}

/// Store the converted value of one trimmed slice `t` under field `f`, or
/// the error naming the field and the offending text.
pub open spec fn spec_decode_field(acc: ProcessV, f: Field, t: Seq<char>) -> Result<
    ProcessV,
    PsErrorV,
> {
    match f {
        Field::Pid => if int_ok(t) {
            Ok(ProcessV { pid: Some(digits_val(t) as u32), ..acc })
        } else {
            Err(PsErrorV::InvalidInteger { field: f, raw: t })
        },
        Field::Ppid => if int_ok(t) {
            Ok(ProcessV { parent_pid: Some(digits_val(t) as u32), ..acc })
        } else {
            Err(PsErrorV::InvalidInteger { field: f, raw: t })
        },
        Field::Uid => if int_ok(t) {
            Ok(ProcessV { uid: Some(digits_val(t) as u32), ..acc })
        } else {
            Err(PsErrorV::InvalidInteger { field: f, raw: t })
        },
        Field::Tty => Ok(
            ProcessV {
                tty: if t == seq!['?'] {
                    None
                } else {
                    Some(t)
                },
                ..acc
            },
        ),
        Field::Time => if spec_duration(t) is Some && spec_duration(t)->Some_0 <= usize::MAX as int {
            Ok(ProcessV { time_started: Some(spec_duration(t)->Some_0 as usize), ..acc })
        } else {
            Err(PsErrorV::InvalidDuration { raw: t })
        },
        Field::Comm(_) => Ok(ProcessV { command: Some(t), ..acc }),
    }
}

/// Decode the entries from index `i` on over one data line, folding values
/// into `acc`; the first conversion failure aborts the line.
pub open spec fn spec_decode_entries(
    es: Seq<(Field, int, int)>,
    line: Seq<char>,
    i: int,
    acc: ProcessV,
) -> Result<ProcessV, PsErrorV>
    decreases es.len() - i,
{
    if i < 0 || i >= es.len() {
        Ok(acc)
    } else {
        let e = es[i];
        let region = entry_region(e.1, e.2, line.len() as int, i == es.len() - 1);
        let t = spec_trim(line.subrange(region.0, region.1));
        match spec_decode_field(acc, e.0, t) {
            Ok(acc2) => spec_decode_entries(es, line, i + 1, acc2),
            Err(err) => Err(err),
        }
    }
}

/// Decode one whole data line against the header's entries.
pub open spec fn spec_decode_line(es: Seq<(Field, int, int)>, line: Seq<char>) -> Result<
    ProcessV,
    PsErrorV,
> {
    spec_decode_entries(es, line, 0, ProcessV::blank())
}

/// Decode the lines from index `i` on, in line order, fail-fast: the first
/// line that fails aborts the whole operation with that line's error.
pub open spec fn spec_decode_all(
    es: Seq<(Field, int, int)>,
    ls: Seq<Seq<char>>,
    i: int,
) -> Result<Seq<ProcessV>, PsErrorV>
    decreases ls.len() - i,
{
    if i < 0 || i >= ls.len() {
        Ok(Seq::empty())
    } else {
        match spec_decode_line(es, ls[i]) {
            Ok(p) => match spec_decode_all(es, ls, i + 1) {
                Ok(rest) => Ok(seq![p] + rest),
                Err(e) => Err(e),
            },
            Err(e) => Err(e),
        }
    }
}

/// One whole listing operation over raw output text: line 0 is the header;
/// no lines at all, or a header yielding no recognized column, is a
/// terminal error; every further line decodes to one record.
pub open spec fn spec_parse_output(s: Seq<char>) -> Result<Seq<ProcessV>, PsErrorV> {
    let ls = spec_lines(s);
    if ls.len() == 0 {
        Err(PsErrorV::MissingHeader)
    } else {
        let es = scan_spec(ls[0]);
        if es.len() == 0 {
            Err(PsErrorV::NoRecognizedFields)
        } else {
            spec_decode_all(es, ls, 1)
        }
    }
}

/// Drives one listing operation: scans the header, then decodes every
/// following line.  The manager holds no state; each call owns its own
/// header-entry sequence.
pub struct Manager {}

impl Manager {
    pub fn new() -> (m: Manager) {
        Manager {  }
    }

    /// Scan one header line into the ordered header-entry sequence.
    pub fn parse_headers(&self, header: String) -> (r: Vec<Header>)
        ensures
            header_triples(r@) == scan_spec(header@),
    {
        let mut header_parser = Parser::new(header);
        header_parser.parse()
    }

    /// Decode one data line against the header entries: one typed value per
    /// entry, stored in a fresh record; the first conversion failure aborts
    /// the line with the error naming the field and the offending text.
    pub fn parse_line(&self, headers: Vec<Header>, line: &str) -> (r: Result<Process, PsError>)
        ensures
            ({
                let d = spec_decode_line(header_triples(headers@), line@);
                match r {
                    Ok(p) => d is Ok && p@ == d->Ok_0,
                    Err(e) => d is Err && e@ == d->Err_0,
                }
            }),
    {
        let lv = chars_of(line);
        let ghost es = header_triples(headers@);
        let mut process = Process::blank_new();
        let n = headers.len();
        let len = lv.len();
        let mut i: usize = 0;
        while i < n
            invariant
                i <= n == headers@.len(),
                es == header_triples(headers@),
                lv@ == line@,
                len == lv@.len(),
                spec_decode_entries(es, line@, i as int, process@) == spec_decode_line(es, line@),
            decreases n - i,
        {
            let h = headers[i];
            let start = h.position.start_col;
            let end = h.position.end_col;
            let lo = if start > len {
                len
            } else {
                start
            };
            let hi0 = if i == n - 1 {
                len
            } else if end > len {
                len
            } else {
                end
            };
            let hi = if hi0 < lo {
                lo
            } else {
                hi0
            };
            proof {
                assert(es[i as int] == (h.field, start as int, end as int));
                assert(entry_region(start as int, end as int, line@.len() as int, i as int
                    == es.len() - 1) == (lo as int, hi as int));
            }
            let slice = slice_chars(&lv, lo, hi);
            let t = trim_chars(&slice);
            match h.field {
                Field::Pid => {
                    match parse_u32(&t) {
                        Some(x) => {
                            process.pid = Some(x);
                        },
                        None => {
                            return Err(
                                PsError::InvalidInteger {
                                    field: h.field,
                                    raw: string_from_chars(&t),
                                },
                            );
                        },
                    }
                },
                Field::Ppid => {
                    match parse_u32(&t) {
                        Some(x) => {
                            process.parent_pid = Some(x);
                        },
                        None => {
                            return Err(
                                PsError::InvalidInteger {
                                    field: h.field,
                                    raw: string_from_chars(&t),
                                },
                            );
                        },
                    }
                },
                Field::Uid => {
                    match parse_u32(&t) {
                        Some(x) => {
                            process.uid = Some(x);
                        },
                        None => {
                            return Err(
                                PsError::InvalidInteger {
                                    field: h.field,
                                    raw: string_from_chars(&t),
                                },
                            );
                        },
                    }
                },
                Field::Tty => {
                    if t.len() == 1 && t[0] == '?' {
                        proof {
                            assert(t@ =~= seq!['?']);
                        }
                        process.tty = None;
                    } else {
                        process.tty = Some(string_from_chars(&t));
                    }
                },
                Field::Time => {
                    match duration_seconds(&t) {
                        Some(secs) => {
                            process.time_started = Some(secs);
                        },
                        None => {
                            return Err(
                                PsError::InvalidDuration { raw: string_from_chars(&t) },
                            );
                        },
                    }
                },
                Field::Comm(_) => {
                    process.command = Some(string_from_chars(&t));
                },
            }
            i += 1;
        }
        Ok(process)
    }

    /// Decode one elapsed-time value, leading and trailing spaces ignored.
    pub fn parse_time(&self, raw_time: &str) -> (r: Result<usize, PsError>)
        ensures
            ({
                let t = spec_trim(raw_time@);
                match r {
                    Ok(secs) => spec_duration(t) == Some(secs as int),
                    Err(e) => (spec_duration(t) is None || spec_duration(t)->Some_0
                        > usize::MAX as int) && e@ == (PsErrorV::InvalidDuration { raw: t }),
                }
            }),
    {
        let v = chars_of(raw_time);
        let t = trim_chars(&v);
        match duration_seconds(&t) {
            Some(secs) => Ok(secs),
            None => Err(PsError::InvalidDuration { raw: string_from_chars(&t) }),
        }
    }

    /// Reorder the requested fields so that those whose spelling is a single
    /// token come first, each group keeping its order.
    pub fn sort_fields(&self, fields: Vec<Field>) -> (r: Vec<Field>)
        ensures
            r@ == fields@.filter(|f: Field| spec_has_one_ident(f)) + fields@.filter(
                |f: Field| !spec_has_one_ident(f),
            ),
    {
        let n = fields.len();
        let mut r: Vec<Field> = Vec::new();
        let mut i: usize = 0;
        while i < n
            invariant
                i <= n == fields@.len(),
                r@ == fields@.subrange(0, i as int).filter(|f: Field| spec_has_one_ident(f)),
            decreases n - i,
        {
            let f = fields[i];
            proof {
                reveal(Seq::filter);
                assert(fields@.subrange(0, i + 1 as int).drop_last() =~= fields@.subrange(
                    0,
                    i as int,
                ));
            }
            if f.has_one_ident() {
                r.push(f);
            }
            i += 1;
        }
        let ghost ones = fields@.filter(|f: Field| spec_has_one_ident(f));
        proof {
            assert(fields@.subrange(0, n as int) =~= fields@);
        }
        let mut j: usize = 0;
        while j < n
            invariant
                j <= n == fields@.len(),
                r@ == ones + fields@.subrange(0, j as int).filter(
                    |f: Field| !spec_has_one_ident(f),
                ),
            decreases n - j,
        {
            let f = fields[j];
            proof {
                reveal(Seq::filter);
                assert(fields@.subrange(0, j + 1 as int).drop_last() =~= fields@.subrange(
                    0,
                    j as int,
                ));
            }
            if !f.has_one_ident() {
                r.push(f);
            }
            j += 1;
        }
        proof {
            assert(fields@.subrange(0, n as int) =~= fields@);
        }
        r
    }

    /// The arguments one request turns into: the comma-joined column
    /// keywords (each kept once, single-token fields first) and the extra
    /// arguments.  What runs the listing tool passes the extra arguments,
    /// then the joined keywords after its column-selection flag.
    pub fn ps_args(&self, fields: Vec<Field>) -> (r: (String, Vec<String>))
        ensures
            ({
                let sorted = fields@.filter(|f: Field| spec_has_one_ident(f)) + fields@.filter(
                    |f: Field| !spec_has_one_ident(f),
                );
                let sel = spec_ps_selection(sorted, 0, Seq::empty(), Seq::empty());
                r.0@ == spec_join_comma(sel.0) && r.1@.map_values(|a: String| a@) == sel.1
            }),
    {
        let sorted = self.sort_fields(fields);
        let mut names: Vec<String> = Vec::new();
        let mut args: Vec<String> = Vec::new();
        proof {
            assert(names@.map_values(|n: String| n@) =~= Seq::<Seq<char>>::empty());
            assert(args@.map_values(|a: String| a@) =~= Seq::<Seq<char>>::empty());
        }
        let mut i: usize = 0;
        while i < sorted.len()
            invariant
                i <= sorted@.len(),
                spec_ps_selection(sorted@, 0, Seq::empty(), Seq::empty()) == spec_ps_selection(
                    sorted@,
                    i as int,
                    names@.map_values(|n: String| n@),
                    args@.map_values(|a: String| a@),
                ),
            decreases sorted@.len() - i,
        {
            let f = sorted[i];
            let nm = crate::field::ps_name(f);
            let ghost names0 = names@.map_values(|n: String| n@);
            let ghost args0 = args@.map_values(|a: String| a@);
            if !contains_name(&names, &nm) {
                match crate::field::ps_arg(f) {
                    Some(a) => {
                        args.push(a);
                        proof {
                            assert(args@.map_values(|x: String| x@) =~= args0.push(
                                spec_ps_arg(f)->Some_0,
                            ));
                        }
                    },
                    None => {
                    },
                }
                names.push(nm);
                proof {
                    assert(names@.map_values(|x: String| x@) =~= names0.push(spec_ps_name(f)));
                }
            }
            i += 1;
        }
        (join_comma(&names), args)
    }

    /// Decode one whole output text: scan line 0 as the header, then decode
    /// every following line in order, fail-fast.
    pub fn parse_ps_output(&self, output: &str) -> (r: Result<Vec<Process>, PsError>)
        ensures
            ({
                let d = spec_parse_output(output@);
                match r {
                    Ok(ps) => d is Ok && ps@.map_values(|p: Process| p@) == d->Ok_0,
                    Err(e) => d is Err && e@ == d->Err_0,
                }
            }),
    {
        let ov = chars_of(output);
        let lines = split_lines(&ov);
        let ghost ls = lines@.map_values(|x: Vec<char>| x@);
        if lines.len() == 0 {
            return Err(PsError::MissingHeader);
        }
        let header_line = string_from_chars(&lines[0]);
        proof {
            assert(ls[0] == lines@[0]@);
        }
        let headers = self.parse_headers(header_line);
        if headers.len() == 0 {
            proof {
                assert(header_triples(headers@).len() == 0);
            }
            return Err(PsError::NoRecognizedFields);
        }
        let ghost es = header_triples(headers@);
        proof {
            assert(es.len() == headers@.len());
        }
        let mut processes: Vec<Process> = Vec::new();
        let mut j: usize = 1;
        while j < lines.len()
            invariant
                1 <= j <= lines@.len(),
                ls == lines@.map_values(|x: Vec<char>| x@),
                ls == spec_lines(output@),
                es == header_triples(headers@),
                es == scan_spec(ls[0]),
                es.len() > 0,
                spec_decode_all(es, ls, 1) == match spec_decode_all(es, ls, j as int) {
                    Ok(rest) => Ok::<Seq<ProcessV>, PsErrorV>(
                        processes@.map_values(|p: Process| p@) + rest,
                    ),
                    Err(e) => Err::<Seq<ProcessV>, PsErrorV>(e),
                },
            decreases lines@.len() - j,
        {
            let line_s = string_from_chars(&lines[j]);
            proof {
                assert(ls[j as int] == lines@[j as int]@);
            }
            match self.parse_line(copy_headers(&headers), line_s.as_str()) {
                Ok(p) => {
                    let ghost before = processes@.map_values(|q: Process| q@);
                    processes.push(p);
                    proof {
                        assert(processes@.map_values(|q: Process| q@) =~= before + seq![p@]);
                        if spec_decode_all(es, ls, j + 1) is Ok {
                            assert((before + seq![p@]) + spec_decode_all(es, ls, j + 1)->Ok_0
                                =~= before + (seq![p@] + spec_decode_all(es, ls, j + 1)->Ok_0));
                        }
                    }
                    j += 1;
                },
                Err(e) => {
                    return Err(e);
                },
            }
        }
        proof {
            assert(spec_decode_all(es, ls, j as int) == Ok::<Seq<ProcessV>, PsErrorV>(
                Seq::empty(),
            ));
            assert(processes@.map_values(|p: Process| p@) + Seq::<ProcessV>::empty()
                =~= processes@.map_values(|p: Process| p@));
        }
        Ok(processes)
    }
}

/// The column keywords and extra arguments one request turns into: walk the
/// fields in order, keep each keyword once, and gather the extra argument of
/// every field whose keyword is new.
pub open spec fn spec_ps_selection(
    fs: Seq<Field>,
    i: int,
    names: Seq<Seq<char>>,
    args: Seq<Seq<char>>,
) -> (Seq<Seq<char>>, Seq<Seq<char>>)
    decreases fs.len() - i,
{
    if i < 0 || i >= fs.len() {
        (names, args)
    } else {
        let nm = spec_ps_name(fs[i]);
        if names.contains(nm) {
            spec_ps_selection(fs, i + 1, names, args)
        } else {
            let args2 = match spec_ps_arg(fs[i]) {
                Some(a) => args.push(a),
                None => args,
            };
            spec_ps_selection(fs, i + 1, names.push(nm), args2)
        }
    }
}

/// The pieces joined with commas between them.
pub open spec fn spec_join_comma(names: Seq<Seq<char>>) -> Seq<char>
    decreases names.len(),
{
    if names.len() == 0 {
        Seq::empty()
    } else if names.len() == 1 {
        names[0]
    } else {
        spec_join_comma(names.drop_last()) + seq![','] + names.last()
    }
}

/// Whether one of the gathered keywords reads as `s`.
fn contains_name(names: &Vec<String>, s: &String) -> (r: bool)
    ensures
        r == names@.map_values(|n: String| n@).contains(s@),
{
    let ghost m = names@.map_values(|n: String| n@);
    let mut i: usize = 0;
    while i < names.len()
        invariant
            i <= names@.len(),
            m == names@.map_values(|n: String| n@),
            forall|k: int| 0 <= k < i ==> m[k] != s@,
        decreases names@.len() - i,
    {
        if names[i] == *s {
            proof {
                assert(m[i as int] == s@);
            }
            return true;
        }
        i += 1;
    }
    false
}

/// The keywords joined with commas.
fn join_comma(names: &Vec<String>) -> (r: String)
    ensures
        r@ == spec_join_comma(names@.map_values(|n: String| n@)),
{
    let ghost m = names@.map_values(|n: String| n@);
    let mut out = String::new();
    let mut i: usize = 0;
    while i < names.len()
        invariant
            i <= names@.len(),
            m == names@.map_values(|n: String| n@),
            out@ == spec_join_comma(m.subrange(0, i as int)),
        decreases names@.len() - i,
    {
        proof {
            assert(m.subrange(0, i + 1 as int).drop_last() =~= m.subrange(0, i as int));
            assert(m.subrange(0, i + 1 as int).last() == m[i as int]);
        }
        if i > 0 {
            crate::text::push_char(&mut out, ',');
        }
        out.append(names[i].as_str());
        proof {
            if i == 0 {
                assert(m.subrange(0, 1).len() == 1);
                assert(m.subrange(0, 1)[0] == m[0]);
            }
        }
        i += 1;
    }
    proof {
        assert(m.subrange(0, m.len() as int) =~= m);
    }
    out
}

/// Fail-fast: when every data line before index `i` decodes and line `i`
/// fails, the whole operation reports exactly line `i`'s error, and no
/// partial record list comes back.
pub proof fn lemma_fail_fast(es: Seq<(Field, int, int)>, ls: Seq<Seq<char>>, i: int)
    requires
        1 <= i < ls.len(),
        forall|k: int| 1 <= k < i ==> spec_decode_line(es, #[trigger] ls[k]) is Ok,
        spec_decode_line(es, ls[i]) is Err,
    ensures
        spec_decode_all(es, ls, 1) == Err::<Seq<ProcessV>, PsErrorV>(
            spec_decode_line(es, ls[i])->Err_0,
        ),
{
    lemma_fail_fast_from(es, ls, 1, i);
}

proof fn lemma_fail_fast_from(es: Seq<(Field, int, int)>, ls: Seq<Seq<char>>, j: int, i: int)
    requires
        0 <= j <= i < ls.len(),
        forall|k: int| j <= k < i ==> spec_decode_line(es, #[trigger] ls[k]) is Ok,
        spec_decode_line(es, ls[i]) is Err,
    ensures
        spec_decode_all(es, ls, j) == Err::<Seq<ProcessV>, PsErrorV>(
            spec_decode_line(es, ls[i])->Err_0,
        ),
    decreases i - j,
{
    if j < i {
        lemma_fail_fast_from(es, ls, j + 1, i);
    }
}

/// When every data line decodes, the operation succeeds with exactly one
/// record per line, in line order.
pub proof fn lemma_decode_all_ok(es: Seq<(Field, int, int)>, ls: Seq<Seq<char>>, j: int)
    requires
        0 <= j <= ls.len(),
        forall|k: int| j <= k < ls.len() ==> spec_decode_line(es, #[trigger] ls[k]) is Ok,
    ensures
        spec_decode_all(es, ls, j) is Ok,
        spec_decode_all(es, ls, j)->Ok_0.len() == ls.len() - j,
        forall|k: int|
            j <= k < ls.len() ==> spec_decode_all(es, ls, j)->Ok_0[k - j] == spec_decode_line(
                es,
                #[trigger] ls[k],
            )->Ok_0,
    decreases ls.len() - j,
{
    if j < ls.len() {
        lemma_decode_all_ok(es, ls, j + 1);
    }
}

/// A fresh vector holding the same header entries.
fn copy_headers(hs: &Vec<Header>) -> (r: Vec<Header>)
    ensures
        r@ == hs@,
{
    let mut r: Vec<Header> = Vec::new();
    let mut i: usize = 0;
    while i < hs.len()
        invariant
            i <= hs@.len(),
            r@ == hs@.subrange(0, i as int),
        decreases hs@.len() - i,
    {
        r.push(hs[i]);
        i += 1;
        proof {
            assert(r@ =~= hs@.subrange(0, i as int));
        }
    }
    proof {
        assert(r@ =~= hs@);
    }
    r
}

} // verus!
