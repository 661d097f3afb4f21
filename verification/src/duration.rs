//! The elapsed-time decoder: turns a duration string of the shape
//! `[[HH:]MM:]SS[.fraction]` into a whole count of seconds.
//!
//! Components are read right to left: a lone component is seconds, two are
//! minutes and seconds, three are hours, minutes and seconds.  Missing
//! leading components contribute zero.  A fractional-seconds suffix is
//! checked but discarded: sub-second precision is not retained.

use vstd::prelude::*;
use crate::num::{all_digits, digits_val, lemma_digits_val_nonneg, parse_digits, NumParse};
use crate::text::{split_chars, split_on};

verus! {

/// A well-formed duration component: a non-empty digit string.
pub open spec fn comp_ok(t: Seq<char>) -> bool {
    t.len() > 0 && all_digits(t)
}

/// The seconds a duration string denotes, or `None` when it is malformed.
/// The value is mathematical: overflow is the executable reader's concern.
pub open spec fn spec_duration(s: Seq<char>) -> Option<int> {
    let parts = split_on(s, ':');
    if parts.len() > 3 {
        None
    } else {
        let h = if parts.len() == 3 {
            parts[0]
        } else {
            Seq::empty()
        };
        let m = if parts.len() >= 2 {
            parts[parts.len() - 2]
        } else {
            Seq::empty()
        };
        let sp = split_on(parts[parts.len() - 1], '.');
        if sp.len() > 2 {
            None
        } else {
            let sec = sp[0];
            let h_ok = parts.len() < 3 || comp_ok(h);
            let m_ok = parts.len() < 2 || comp_ok(m);
            let frac_ok = sp.len() == 1 || comp_ok(sp[1]);
            if h_ok && m_ok && comp_ok(sec) && frac_ok {
                Some(digits_val(h) * 3600 + digits_val(m) * 60 + digits_val(sec))
            } else {
                None
            }
        }
    }
}

/// Read one component: its value, or `None` for a malformed component,
/// with a malformed marker distinguished from a too-large one by the
/// returned pair's second half.
fn read_comp(v: &Vec<char>) -> (r: (Option<u64>, bool))
    ensures
        match r.0 {
            Some(x) => comp_ok(v@) && x == digits_val(v@),
            None => r.1 ==> comp_ok(v@) && digits_val(v@) > u64::MAX,
        },
        r.0 is None && !r.1 ==> !comp_ok(v@),
{
    match parse_digits(v) {
        NumParse::Value(x) => (Some(x), false),
        NumParse::TooBig => (None, true),
        NumParse::NotANumber => (None, false),
    }
}

/// The whole seconds a duration string denotes: `Some` exactly when the
/// string is well formed and its value fits the record's seconds field.
pub fn duration_seconds(v: &Vec<char>) -> (r: Option<usize>)
    ensures
        match r {
            Some(t) => spec_duration(v@) == Some(t as int),
            None => spec_duration(v@) is None || spec_duration(v@)->Some_0 > usize::MAX,
        },
{
    let parts = split_chars(v, ':');
    let np = parts.len();
    if np > 3 {
        return None;
    }
    let sp = split_chars(&parts[np - 1], '.');
    if sp.len() > 2 {
        return None;
    }
    let ghost pv = parts@.map_values(|p: Vec<char>| p@);
    let ghost spv = sp@.map_values(|p: Vec<char>| p@);
    let ghost hseq = if np == 3 {
        pv[0]
    } else {
        Seq::<char>::empty()
    };
    let ghost mseq = if np >= 2 {
        pv[np - 2]
    } else {
        Seq::<char>::empty()
    };
    let ghost sseq = spv[0];
    proof {
        assert(pv == split_on(v@, ':'));
        assert(pv[np - 1] == parts@[np - 1]@);
        assert(spv == split_on(pv[np - 1], '.'));
        assert(sseq == sp@[0]@);
    }
    if sp.len() == 2 {
        // the fraction must be a digit string, though its value is dropped
        let (frac, frac_overflow) = read_comp(&sp[1]);
        proof {
            assert(spv[1] == sp@[1]@);
        }
        if frac.is_none() && !frac_overflow {
            return None;
        }
    }
    let (sec, sec_big) = read_comp(&sp[0]);
    let (minutes, min_big) = if np >= 2 {
        let r = read_comp(&parts[np - 2]);
        proof {
            assert(mseq == parts@[np - 2]@);
        }
        r
    } else {
        (Some(0u64), false)
    };
    let (hours, hour_big) = if np == 3 {
        let r = read_comp(&parts[0]);
        proof {
            assert(hseq == parts@[0]@);
        }
        r
    } else {
        (Some(0u64), false)
    };
    let (s_val, m_val, h_val) = match (sec, minutes, hours) {
        (Some(s), Some(m), Some(h)) => (s, m, h),
        _ => {
            // a component is either malformed (no duration at all) or so
            // large that the total cannot fit the seconds field
            proof {
                if spec_duration(v@) is Some {
                    lemma_total_dominates(hseq, mseq, sseq);
                }
            }
            return None;
        },
    };
    proof {
        lemma_comp_vals_nonneg(hseq, mseq, sseq);
    }
    let total_opt = match h_val.checked_mul(3600) {
        Some(hh) => match m_val.checked_mul(60) {
            Some(mm) => match hh.checked_add(mm) {
                Some(hm) => hm.checked_add(s_val),
                None => None,
            },
            None => None,
        },
        None => None,
    };
    match total_opt {
        Some(total) => {
            if total <= usize::MAX as u64 {
                Some(total as usize)
            } else {
                None
            }
        },
        None => {
            // the mathematical total exceeds u64::MAX, so it cannot fit
            None
        },
    }
}

/// Each well-formed component's value is at most the whole duration's
/// value, all components being non-negative.
proof fn lemma_total_dominates(h: Seq<char>, m: Seq<char>, s: Seq<char>)
    requires
        all_digits(h),
        all_digits(m),
        all_digits(s),
    ensures
        digits_val(h) * 3600 + digits_val(m) * 60 + digits_val(s) >= digits_val(h),
        digits_val(h) * 3600 + digits_val(m) * 60 + digits_val(s) >= digits_val(m),
        digits_val(h) * 3600 + digits_val(m) * 60 + digits_val(s) >= digits_val(s),
{
    lemma_digits_val_nonneg(h);
    lemma_digits_val_nonneg(m);
    lemma_digits_val_nonneg(s);
    let dh = digits_val(h);
    let dm = digits_val(m);
    let ds = digits_val(s);
    assert(dh * 3600 >= dh && dh * 3600 >= 0) by (nonlinear_arith)
        requires
            dh >= 0,
    ;
    assert(dm * 60 >= dm && dm * 60 >= 0) by (nonlinear_arith)
        requires
            dm >= 0,
    ;
}

proof fn lemma_comp_vals_nonneg(h: Seq<char>, m: Seq<char>, s: Seq<char>)
    requires
        all_digits(h),
        all_digits(m),
        all_digits(s),
    ensures
        digits_val(h) >= 0,
        digits_val(m) >= 0,
        digits_val(s) >= 0,
{
    lemma_digits_val_nonneg(h);
    lemma_digits_val_nonneg(m);
    lemma_digits_val_nonneg(s);
}

} // verus!
