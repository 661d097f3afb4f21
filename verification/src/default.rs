//! A simpler, whitespace-split decoder: columns are located by their token
//! ordinal in the header rather than by character positions.  It cannot
//! carry values that contain spaces across columns, so the positional
//! decoder is the primary one; this one serves headers whose values are
//! single tokens.

use vstd::prelude::*;
use crate::error::{PsError, PsErrorV};
use crate::num::{all_digits, digits_val, parse_u32};
use crate::process::{Process, ProcessV};
use crate::text::{chars_of, is_space_char, space_char, string_from_chars};

verus! {

/// The columns this decoder recognizes, matched against their exact
/// uppercase header tokens.
#[derive(Debug, Eq, PartialEq, Hash, Clone, Copy, Structural)]
pub enum Field {
    Uid,
    Pid,
    Ppid,
    Comm,
}

/// The catalog member a column stands for, used when an error names it.
pub open spec fn spec_catalog_field(f: Field) -> crate::field::Field {
    match f {
        Field::Uid => crate::field::Field::Uid,
        Field::Pid => crate::field::Field::Pid,
        Field::Ppid => crate::field::Field::Ppid,
        Field::Comm => crate::field::Field::Comm(crate::field::Command::FullPath),
    }
}

/// The whitespace-separated tokens of `s`, read from position `i` with
/// `cur` the token gathered so far.
pub open spec fn ws_tokens_acc(s: Seq<char>, i: int, cur: Seq<char>) -> Seq<Seq<char>>
    decreases s.len() - i,
{
    if i < 0 || i >= s.len() {
        if cur.len() > 0 {
            seq![cur]
        } else {
            Seq::empty()
        }
    } else if is_space_char(s[i]) {
        if cur.len() > 0 {
            seq![cur] + ws_tokens_acc(s, i + 1, Seq::empty())
        } else {
            ws_tokens_acc(s, i + 1, Seq::empty())
        }
    } else {
        ws_tokens_acc(s, i + 1, cur.push(s[i]))
    }
}

/// The whitespace-separated tokens of `s`: maximal non-space runs.
pub open spec fn ws_tokens(s: Seq<char>) -> Seq<Seq<char>> {
    ws_tokens_acc(s, 0, Seq::empty())
}

/// The whitespace-separated tokens of `v`, as fresh vectors.
fn tokens_of(v: &Vec<char>) -> (toks: Vec<Vec<char>>)
    ensures
        toks@.map_values(|t: Vec<char>| t@) == ws_tokens(v@),
{
    let n: usize = v.len();
    let mut toks: Vec<Vec<char>> = Vec::new();
    let mut cur: Vec<char> = Vec::new();
    let mut i: usize = 0;
    while i < n
        invariant
            i <= n == v@.len(),
            ws_tokens(v@) == toks@.map_values(|t: Vec<char>| t@) + ws_tokens_acc(
                v@,
                i as int,
                cur@,
            ),
        decreases n - i,
    {
        let c = v[i];
        let ghost before = toks@.map_values(|t: Vec<char>| t@);
        let ghost cur0 = cur@;
        if space_char(c) {
            if cur.len() > 0 {
                let done = cur;
                cur = Vec::new();
                toks.push(done);
                proof {
                    assert(toks@.map_values(|t: Vec<char>| t@) =~= before + seq![done@]);
                    assert(ws_tokens_acc(v@, i as int, cur0) == seq![cur0] + ws_tokens_acc(
                        v@,
                        i + 1,
                        Seq::empty(),
                    ));
                    assert((before + seq![cur0]) + ws_tokens_acc(v@, i + 1, Seq::empty())
                        =~= before + (seq![cur0] + ws_tokens_acc(v@, i + 1, Seq::empty())));
                }
            } else {
                proof {
                    assert(cur0 =~= Seq::<char>::empty());
                    assert(ws_tokens_acc(v@, i as int, cur0) == ws_tokens_acc(v@, i + 1, cur0));
                }
            }
        } else {
            cur.push(c);
            proof {
                assert(cur@ == cur0.push(v@[i as int]));
                assert(ws_tokens_acc(v@, i as int, cur0) == ws_tokens_acc(v@, i + 1, cur@));
            }
        }
        i += 1;
    }
    if cur.len() > 0 {
        let done = cur;
        toks.push(done);
        proof {
            assert(toks@.map_values(|t: Vec<char>| t@) =~= toks@.drop_last().map_values(
                |t: Vec<char>| t@,
            ) + seq![done@]);
        }
    }
    proof {
        assert(toks@.map_values(|t: Vec<char>| t@) =~= ws_tokens(v@));
    }
    toks
}

/// The column a header token names, matched exactly.
pub open spec fn spec_column_field(t: Seq<char>) -> Option<Field> {
    if t == seq!['U', 'I', 'D'] {
        Some(Field::Uid)
    } else if t == seq!['P', 'I', 'D'] {
        Some(Field::Pid)
    } else if t == seq!['P', 'P', 'I', 'D'] {
        Some(Field::Ppid)
    } else if t == seq!['C', 'O', 'M', 'M'] {
        Some(Field::Comm)
    } else {
        None
    }
}

fn column_field(t: &Vec<char>) -> (r: Option<Field>)
    ensures
        r == spec_column_field(t@),
{
    if t.len() == 3 && t[0] == 'U' && t[1] == 'I' && t[2] == 'D' {
        proof {
            assert(t@ =~= seq!['U', 'I', 'D']);
        }
        Some(Field::Uid)
    } else if t.len() == 3 && t[0] == 'P' && t[1] == 'I' && t[2] == 'D' {
        proof {
            assert(t@ =~= seq!['P', 'I', 'D']);
        }
        Some(Field::Pid)
    } else if t.len() == 4 && t[0] == 'P' && t[1] == 'P' && t[2] == 'I' && t[3] == 'D' {
        proof {
            assert(t@ =~= seq!['P', 'P', 'I', 'D']);
        }
        Some(Field::Ppid)
    } else if t.len() == 4 && t[0] == 'C' && t[1] == 'O' && t[2] == 'M' && t[3] == 'M' {
        proof {
            assert(t@ =~= seq!['C', 'O', 'M', 'M']);
        }
        Some(Field::Comm)
    } else {
        None
    }
}

/// The recognized columns of a header, each with its token ordinal.
pub open spec fn spec_column_indexes(toks: Seq<Seq<char>>, i: int) -> Seq<(Field, int)>
    decreases toks.len() - i,
{
    if i < 0 || i >= toks.len() {
        Seq::empty()
    } else {
        match spec_column_field(toks[i]) {
            Some(f) => seq![(f, i)] + spec_column_indexes(toks, i + 1),
            None => spec_column_indexes(toks, i + 1),
        }
    }
}

/// The (column, ordinal) pairs a column table holds.
pub open spec fn column_pairs(s: Seq<(Field, usize)>) -> Seq<(Field, int)> {
    s.map_values(|p: (Field, usize)| (p.0, p.1 as int))
}

/// The first column recorded under ordinal `idx`, if one is, scanning the
/// table from entry `i` on.
pub open spec fn spec_find_by_idx(s: Seq<(Field, usize)>, idx: int, i: int) -> Option<Field>
    decreases s.len() - i,
{
    if i < 0 || i >= s.len() {
        None
    } else if s[i].1 == idx {
        Some(s[i].0)
    } else {
        spec_find_by_idx(s, idx, i + 1)
    }
}

/// Which token ordinal of a data line belongs to which column.
pub struct Columns {
    _indexes: Vec<(Field, usize)>,
}

impl View for Columns {
    type V = Seq<(Field, usize)>;

    closed spec fn view(&self) -> Seq<(Field, usize)> {
        self._indexes@
    }
}

impl Columns {
    pub fn new(indexes: Vec<(Field, usize)>) -> (c: Columns)
        ensures
            c@ == indexes@,
    {
        Columns { _indexes: indexes }
    }

    /// The column recorded under token ordinal `idx`, if one is.
    pub fn find_by_idx(&self, idx: usize) -> (r: Option<Field>)
        ensures
            r == spec_find_by_idx(self@, idx as int, 0),
    {
        let n = self._indexes.len();
        let mut i: usize = 0;
        while i < n
            invariant
                i <= n == self@.len(),
                spec_find_by_idx(self@, idx as int, 0) == spec_find_by_idx(
                    self@,
                    idx as int,
                    i as int,
                ),
            decreases n - i,
        {
            let (field, index) = self._indexes[i];
            if index == idx {
                return Some(field);
            }
            i += 1;
        }
        None
    }
}

/// Convert the value a column's token holds and store it under the
/// column's attribute; numeric columns fail on anything but a number.
pub open spec fn spec_token_value(acc: ProcessV, f: Field, t: Seq<char>) -> Result<
    ProcessV,
    PsErrorV,
> {
    match f {
        Field::Uid => if crate::manager::int_ok(t) {
            Ok(ProcessV { uid: Some(digits_val(t) as u32), ..acc })
        } else {
            Err(PsErrorV::InvalidInteger { field: spec_catalog_field(f), raw: t })
        },
        Field::Pid => if crate::manager::int_ok(t) {
            Ok(ProcessV { pid: Some(digits_val(t) as u32), ..acc })
        } else {
            Err(PsErrorV::InvalidInteger { field: spec_catalog_field(f), raw: t })
        },
        Field::Ppid => if crate::manager::int_ok(t) {
            Ok(ProcessV { parent_pid: Some(digits_val(t) as u32), ..acc })
        } else {
            Err(PsErrorV::InvalidInteger { field: spec_catalog_field(f), raw: t })
        },
        Field::Comm => Ok(ProcessV { command: Some(t), ..acc }),
    }
}

/// Decode the tokens of one data line from ordinal `i` on against the
/// column table; tokens under no recorded ordinal are passed over.
pub open spec fn spec_parse_tokens(
    cols: Seq<(Field, usize)>,
    toks: Seq<Seq<char>>,
    i: int,
    acc: ProcessV,
) -> Result<ProcessV, PsErrorV>
    decreases toks.len() - i,
{
    if i < 0 || i >= toks.len() {
        Ok(acc)
    } else {
        match spec_find_by_idx(cols, i, 0) {
            None => spec_parse_tokens(cols, toks, i + 1, acc),
            Some(f) => match spec_token_value(acc, f, toks[i]) {
                Ok(acc2) => spec_parse_tokens(cols, toks, i + 1, acc2),
                Err(e) => Err(e),
            },
        }
    }
}

/// Decodes data lines by their whitespace-separated token ordinals.
pub struct DefaultManager {}

impl DefaultManager {
    pub fn new() -> (m: DefaultManager) {
        DefaultManager {  }
    }

    /// Locate the recognized columns of the header by token ordinal.  A
    /// header yielding no recognized column is a terminal error.
    pub fn get_indexes(&self, header: &str) -> (r: Result<Columns, PsError>)
        ensures
            ({
                let found = spec_column_indexes(ws_tokens(header@), 0);
                match r {
                    Ok(c) => found.len() > 0 && column_pairs(c@) == found,
                    Err(e) => found.len() == 0 && e@ == PsErrorV::NoRecognizedFields,
                }
            }),
    {
        let hv = chars_of(header);
        let toks = tokens_of(&hv);
        let ghost tv = toks@.map_values(|t: Vec<char>| t@);
        let mut indexes: Vec<(Field, usize)> = Vec::new();
        proof {
            assert(column_pairs(indexes@) =~= Seq::<(Field, int)>::empty());
        }
        let mut i: usize = 0;
        while i < toks.len()
            invariant
                i <= toks@.len(),
                tv == toks@.map_values(|t: Vec<char>| t@),
                spec_column_indexes(tv, 0) == column_pairs(indexes@) + spec_column_indexes(
                    tv,
                    i as int,
                ),
            decreases toks@.len() - i,
        {
            proof {
                assert(tv[i as int] == toks@[i as int]@);
            }
            let ghost before = column_pairs(indexes@);
            match column_field(&toks[i]) {
                Some(field) => {
                    indexes.push((field, i));
                    proof {
                        assert(column_pairs(indexes@) =~= before + seq![(field, i as int)]);
                    }
                },
                None => {
                },
            }
            i += 1;
        }
        if indexes.len() == 0 {
            proof {
                assert(spec_column_indexes(tv, 0) =~= Seq::<(Field, int)>::empty());
            }
            return Err(PsError::NoRecognizedFields);
        }
        Ok(Columns::new(indexes))
    }

    /// Decode one data line: split it on whitespace and convert each token
    /// whose ordinal the column table records; the first conversion failure
    /// aborts the line.
    pub fn parse(&self, cols: Columns, line: &str) -> (r: Result<Process, PsError>)
        ensures
            ({
                let d = spec_parse_tokens(cols@, ws_tokens(line@), 0, ProcessV::blank());
                match r {
                    Ok(p) => d is Ok && p@ == d->Ok_0,
                    Err(e) => d is Err && e@ == d->Err_0,
                }
            }),
    {
        let lv = chars_of(line);
        let toks = tokens_of(&lv);
        let ghost tv = toks@.map_values(|t: Vec<char>| t@);
        let mut process = Process::blank_new();
        let mut i: usize = 0;
        while i < toks.len()
            invariant
                i <= toks@.len(),
                tv == toks@.map_values(|t: Vec<char>| t@),
                tv == ws_tokens(line@),
                spec_parse_tokens(cols@, tv, i as int, process@) == spec_parse_tokens(
                    cols@,
                    tv,
                    0,
                    ProcessV::blank(),
                ),
            decreases toks@.len() - i,
        {
            proof {
                assert(tv[i as int] == toks@[i as int]@);
            }
            let field = match cols.find_by_idx(i) {
                Some(field) => field,
                None => {
                    i += 1;
                    continue ;
                },
            };
            let t = &toks[i];
            match field {
                Field::Uid => {
                    match parse_u32(t) {
                        Some(x) => {
                            process.uid = Some(x);
                        },
                        None => {
                            return Err(
                                PsError::InvalidInteger {
                                    field: crate::field::Field::Uid,
                                    raw: string_from_chars(t),
                                },
                            );
                        },
                    }
                },
                Field::Pid => {
                    match parse_u32(t) {
                        Some(x) => {
                            process.pid = Some(x);
                        },
                        None => {
                            return Err(
                                PsError::InvalidInteger {
                                    field: crate::field::Field::Pid,
                                    raw: string_from_chars(t),
                                },
                            );
                        },
                    }
                },
                Field::Ppid => {
                    match parse_u32(t) {
                        Some(x) => {
                            process.parent_pid = Some(x);
                        },
                        None => {
                            return Err(
                                PsError::InvalidInteger {
                                    field: crate::field::Field::Ppid,
                                    raw: string_from_chars(t),
                                },
                            );
                        },
                    }
                },
                Field::Comm => {
                    process.command = Some(string_from_chars(t));
                },
            }
            i += 1;
        }
        Ok(process)
    }
}

} // verus!
