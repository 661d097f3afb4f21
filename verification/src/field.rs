//! The field catalog: the closed set of recognized columns and the
//! bijection between fields and their canonical textual labels.
//!
//! Decoding a label is case-insensitive; encoding yields the canonical
//! spelling.  The executable-name form of the command field is the one
//! member whose encoding is a label/argument pair (`"COMM -c"`) rather
//! than a single header token.

use vstd::prelude::*;
use crate::error::PsError;
use crate::text::{chars_of, lower_seq, string_from_chars, to_lower};

verus! {

/// Which form of the command column is requested.
#[derive(Copy, Clone, Debug, PartialEq, Eq, Structural)]
pub enum Command {
    /// The full path of the binary that started the process.
    FullPath,
    /// The executable name alone.
    ExecutableName,
}

/// The closed set of recognized columns.
#[derive(Copy, Clone, Debug, PartialEq, Eq, Structural)]
pub enum Field {
    Pid,
    Ppid,
    Uid,
    Tty,
    Time,
    Comm(Command),
}

/// The field a lowercased label denotes, if any.
pub open spec fn spec_label_to_field(s: Seq<char>) -> Option<Field> {
    if s == seq!['p', 'i', 'd'] {
        Some(Field::Pid)
    } else if s == seq!['p', 'p', 'i', 'd'] {
        Some(Field::Ppid)
    } else if s == seq!['u', 'i', 'd'] {
        Some(Field::Uid)
    } else if s == seq!['t', 't', 'y'] {
        Some(Field::Tty)
    } else if s == seq!['t', 'i', 'm', 'e'] {
        Some(Field::Time)
    } else if s == seq!['c', 'o', 'm', 'm'] {
        Some(Field::Comm(Command::FullPath))
    } else if s == seq!['c', 'o', 'm', 'm', ' ', '-', 'c'] {
        Some(Field::Comm(Command::ExecutableName))
    } else {
        None
    }
}

/// The canonical spelling of a field.
pub open spec fn spec_field_label(f: Field) -> Seq<char> {
    match f {
        Field::Pid => seq!['P', 'I', 'D'],
        Field::Ppid => seq!['P', 'P', 'I', 'D'],
        Field::Uid => seq!['U', 'I', 'D'],
        Field::Tty => seq!['T', 'T', 'Y'],
        Field::Time => seq!['T', 'I', 'M', 'E'],
        Field::Comm(Command::FullPath) => seq!['C', 'O', 'M', 'M'],
        Field::Comm(Command::ExecutableName) => seq!['C', 'O', 'M', 'M', ' ', '-', 'c'],
    }
}

/// Whether the canonical spelling is a single header token (every field but
/// the executable-name command, whose spelling carries an extra argument).
pub open spec fn spec_has_one_ident(f: Field) -> bool {
    f != Field::Comm(Command::ExecutableName)
}

impl Field {
    pub fn has_one_ident(&self) -> (r: bool)
        ensures
            r == spec_has_one_ident(*self),
    {
        match self {
            Field::Comm(Command::ExecutableName) => false,
            _ => true,
        }
    }
}

/// The field an already-lowercased label denotes, if any.
pub(crate) fn match_lower_label(w: &Vec<char>) -> (r: Option<Field>)
    ensures
        r == spec_label_to_field(w@),
{
    if w.len() == 3 && w[0] == 'p' && w[1] == 'i' && w[2] == 'd' {
        proof {
            assert(w@ =~= seq!['p', 'i', 'd']);
        }
        Some(Field::Pid)
    } else if w.len() == 4 && w[0] == 'p' && w[1] == 'p' && w[2] == 'i' && w[3] == 'd' {
        proof {
            assert(w@ =~= seq!['p', 'p', 'i', 'd']);
        }
        Some(Field::Ppid)
    } else if w.len() == 3 && w[0] == 'u' && w[1] == 'i' && w[2] == 'd' {
        proof {
            assert(w@ =~= seq!['u', 'i', 'd']);
        }
        Some(Field::Uid)
    } else if w.len() == 3 && w[0] == 't' && w[1] == 't' && w[2] == 'y' {
        proof {
            assert(w@ =~= seq!['t', 't', 'y']);
        }
        Some(Field::Tty)
    } else if w.len() == 4 && w[0] == 't' && w[1] == 'i' && w[2] == 'm' && w[3] == 'e' {
        proof {
            assert(w@ =~= seq!['t', 'i', 'm', 'e']);
        }
        Some(Field::Time)
    } else if w.len() == 4 && w[0] == 'c' && w[1] == 'o' && w[2] == 'm' && w[3] == 'm' {
        proof {
            assert(w@ =~= seq!['c', 'o', 'm', 'm']);
        }
        Some(Field::Comm(Command::FullPath))
    } else if w.len() == 7 && w[0] == 'c' && w[1] == 'o' && w[2] == 'm' && w[3] == 'm' && w[4]
        == ' ' && w[5] == '-' && w[6] == 'c' {
        proof {
            assert(w@ =~= seq!['c', 'o', 'm', 'm', ' ', '-', 'c']);
        }
        Some(Field::Comm(Command::ExecutableName))
    } else {
        None
    }
}

/// The characters of a string, ASCII-lowercased.
pub(crate) fn lower_chars_of(s: &str) -> (w: Vec<char>)
    ensures
        w@ == lower_seq(s@),
{
    let v = chars_of(s);
    let mut w: Vec<char> = Vec::new();
    let mut i: usize = 0;
    while i < v.len()
        invariant
            i <= v@.len(),
            v@ == s@,
            w@ == lower_seq(v@.subrange(0, i as int)),
        decreases v@.len() - i,
    {
        w.push(to_lower(v[i]));
        i += 1;
        proof {
            assert(w@ =~= lower_seq(v@.subrange(0, i as int)));
        }
    }
    proof {
        assert(v@.subrange(0, v@.len() as int) =~= v@);
    }
    w
}

/// Case-insensitive strict lookup of a label in the catalog; an
/// unrecognized label is an error carrying the offending text.
pub fn label_to_field(label: &str) -> (r: Result<Field, PsError>)
    ensures
        match r {
            Ok(f) => spec_label_to_field(lower_seq(label@)) == Some(f),
            Err(e) => spec_label_to_field(lower_seq(label@)) is None && (e matches
                PsError::UnrecognizedField { label: l } && l@ == label@),
        },
{
    let w = lower_chars_of(label);
    match match_lower_label(&w) {
        Some(f) => Ok(f),
        None => Err(
            PsError::UnrecognizedField { label: string_from_chars(&chars_of(label)) },
        ),
    }
}

/// The canonical spelling of a field, for showing it or for handing it to
/// the listing tool.
pub fn field_to_label(f: Field) -> (r: String)
    ensures
        r@ == spec_field_label(f),
{
    match f {
        Field::Pid => {
            let s = String::from_str("PID");
            proof {
                reveal_strlit("PID");
                assert(s@ =~= spec_field_label(f));
            }
            s
        },
        Field::Ppid => {
            let s = String::from_str("PPID");
            proof {
                reveal_strlit("PPID");
                assert(s@ =~= spec_field_label(f));
            }
            s
        },
        Field::Uid => {
            let s = String::from_str("UID");
            proof {
                reveal_strlit("UID");
                assert(s@ =~= spec_field_label(f));
            }
            s
        },
        Field::Tty => {
            let s = String::from_str("TTY");
            proof {
                reveal_strlit("TTY");
                assert(s@ =~= spec_field_label(f));
            }
            s
        },
        Field::Time => {
            let s = String::from_str("TIME");
            proof {
                reveal_strlit("TIME");
                assert(s@ =~= spec_field_label(f));
            }
            s
        },
        Field::Comm(Command::FullPath) => {
            let s = String::from_str("COMM");
            proof {
                reveal_strlit("COMM");
                assert(s@ =~= spec_field_label(f));
            }
            s
        },
        Field::Comm(Command::ExecutableName) => {
            let s = String::from_str("COMM -c");
            proof {
                reveal_strlit("COMM -c");
                assert(s@ =~= spec_field_label(f));
            }
            s
        },
    }
}

/// The column-selection keyword for a field, as the listing tool takes it:
/// the label's first token, lowercased.
pub open spec fn spec_ps_name(f: Field) -> Seq<char> {
    match f {
        Field::Pid => seq!['p', 'i', 'd'],
        Field::Ppid => seq!['p', 'p', 'i', 'd'],
        Field::Uid => seq!['u', 'i', 'd'],
        Field::Tty => seq!['t', 't', 'y'],
        Field::Time => seq!['t', 'i', 'm', 'e'],
        Field::Comm(_) => seq!['c', 'o', 'm', 'm'],
    }
}

/// The extra command-line argument a field needs, if any: only the
/// executable-name command carries one.
pub open spec fn spec_ps_arg(f: Field) -> Option<Seq<char>> {
    match f {
        Field::Comm(Command::ExecutableName) => Some(seq!['-', 'c']),
        _ => None,
    }
}

/// The column-selection keyword for a field.
pub fn ps_name(f: Field) -> (r: String)
    ensures
        r@ == spec_ps_name(f),
{
    match f {
        Field::Pid => {
            let s = String::from_str("pid");
            proof {
                reveal_strlit("pid");
                assert(s@ =~= spec_ps_name(f));
            }
            s
        },
        Field::Ppid => {
            let s = String::from_str("ppid");
            proof {
                reveal_strlit("ppid");
                assert(s@ =~= spec_ps_name(f));
            }
            s
        },
        Field::Uid => {
            let s = String::from_str("uid");
            proof {
                reveal_strlit("uid");
                assert(s@ =~= spec_ps_name(f));
            }
            s
        },
        Field::Tty => {
            let s = String::from_str("tty");
            proof {
                reveal_strlit("tty");
                assert(s@ =~= spec_ps_name(f));
            }
            s
        },
        Field::Time => {
            let s = String::from_str("time");
            proof {
                reveal_strlit("time");
                assert(s@ =~= spec_ps_name(f));
            }
            s
        },
        Field::Comm(_) => {
            let s = String::from_str("comm");
            proof {
                reveal_strlit("comm");
                assert(s@ =~= spec_ps_name(f));
            }
            s
        },
    }
}

/// The extra command-line argument a field needs, if any.
pub fn ps_arg(f: Field) -> (r: Option<String>)
    ensures
        match r {
            Some(a) => spec_ps_arg(f) == Some(a@),
            None => spec_ps_arg(f) is None,
        },
{
    match f {
        Field::Comm(Command::ExecutableName) => {
            let s = String::from_str("-c");
            proof {
                reveal_strlit("-c");
                assert(s@ =~= seq!['-', 'c']);
            }
            Some(s)
        },
        _ => None,
    }
}

/// Encoding any catalog member to its canonical label and decoding that
/// label back (case-insensitively) yields the original member.
pub proof fn lemma_label_round_trip(f: Field)
    ensures
        spec_label_to_field(lower_seq(spec_field_label(f))) == Some(f),
{
    match f {
        Field::Pid => {
            assert(lower_seq(spec_field_label(f)) =~= seq!['p', 'i', 'd']);
        },
        Field::Ppid => {
            assert(lower_seq(spec_field_label(f)) =~= seq!['p', 'p', 'i', 'd']);
        },
        Field::Uid => {
            assert(lower_seq(spec_field_label(f)) =~= seq!['u', 'i', 'd']);
        },
        Field::Tty => {
            assert(lower_seq(spec_field_label(f)) =~= seq!['t', 't', 'y']);
        },
        Field::Time => {
            assert(lower_seq(spec_field_label(f)) =~= seq!['t', 'i', 'm', 'e']);
        },
        Field::Comm(Command::FullPath) => {
            assert(lower_seq(spec_field_label(f)) =~= seq!['c', 'o', 'm', 'm']);
        },
        Field::Comm(Command::ExecutableName) => {
            assert(lower_seq(spec_field_label(f)) =~= seq!['c', 'o', 'm', 'm', ' ', '-', 'c']);
        },
    }
}

} // verus!
