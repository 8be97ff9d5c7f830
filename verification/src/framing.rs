//! Framing repair: turning raw input lines into candidate record text.
//!
//! The stream may wrap its records in a top-level JSON array split across
//! lines.  A line holding only a bracket (with surrounding whitespace) or
//! only whitespace is a framing artifact and is discarded; a leading
//! `", "` continuation marker is stripped.  Everything else passes through
//! untouched, so the mapping from cleaned line to eventual output line is
//! one to one.

use vstd::prelude::*;

verus! {

/// ASCII whitespace, the characters the framing test ignores.
pub open spec fn is_ws(c: char) -> bool {
    c == ' ' || c == '\t' || c == '\r' || c == '\n'
}

/// How many characters of `s` are not whitespace.
pub open spec fn nonws_count(s: Seq<char>) -> nat
    decreases s.len(),
{
    if s.len() == 0 {
        0
    } else {
        nonws_count(s.drop_last()) + if is_ws(s.last()) {
            0nat
        } else {
            1nat
        }
    }
}

/// The last non-whitespace character of `s`; a blank when there is none.
pub open spec fn last_nonws(s: Seq<char>) -> char
    decreases s.len(),
{
    if s.len() == 0 {
        ' '
    } else if !is_ws(s.last()) {
        s.last()
    } else {
        last_nonws(s.drop_last())
    }
}

/// A framing artifact: a line that is blank, or holds exactly `[` or `]`
/// once trimming is done.
pub open spec fn discard_line_spec(s: Seq<char>) -> bool {
    nonws_count(s) == 0 || (nonws_count(s) == 1 && (last_nonws(s) == '[' || last_nonws(s)
        == ']'))
}

/// The line begins with the `", "` continuation marker of an array-element
/// separator.
pub open spec fn has_cont_marker(s: Seq<char>) -> bool {
    s.len() >= 2 && s[0] == ',' && s[1] == ' '
}

/// What becomes of one raw line: `None` for a framing artifact, otherwise
/// the candidate record text with any continuation marker stripped.
pub open spec fn clean_line_spec(s: Seq<char>) -> Option<Seq<char>> {
    if discard_line_spec(s) {
        None
    } else if has_cont_marker(s) {
        Some(s.skip(2))
    } else {
        Some(s)
    }
}

/// Whether `c` is ASCII whitespace.
pub fn is_ws_char(c: char) -> (r: bool)
    ensures
        r == is_ws(c),
{
    c == ' ' || c == '\t' || c == '\r' || c == '\n'
}

/// Cleans one raw line: `None` for a framing artifact, otherwise the
/// candidate record text with any continuation marker stripped.
pub fn clean_line(line: &str) -> (r: Option<String>)
    ensures
        r is Some <==> clean_line_spec(line@) is Some,
        r matches Some(s) ==> clean_line_spec(line@) == Some(s@),
{
    let n = line.unicode_len();
    let mut i: usize = 0;
    let mut nonws: usize = 0;
    let mut tok: char = ' ';
    while i < n
        invariant
            i <= n,
            n == line@.len(),
            nonws <= 2,
            (nonws == 2) == (nonws_count(line@.take(i as int)) >= 2),
            nonws_count(line@.take(i as int)) < 2 ==> nonws == nonws_count(
                line@.take(i as int),
            ),
            nonws_count(line@.take(i as int)) >= 1 ==> tok == last_nonws(line@.take(i as int)),
        decreases n - i,
    {
        let c = line.get_char(i);
        proof {
            assert(line@.take(i + 1).drop_last() =~= line@.take(i as int));
            assert(line@.take(i + 1).last() == line@[i as int]);
        }
        if !is_ws_char(c) {
            tok = c;
            if nonws < 2 {
                nonws = nonws + 1;
            }
        } else {
            proof {
                if nonws_count(line@.take(i as int)) >= 1 {
                    assert(last_nonws(line@.take(i + 1)) == last_nonws(line@.take(i as int)));
                }
            }
        }
        i += 1;
    }
    proof {
        assert(line@.take(n as int) =~= line@);
    }
    let discard = nonws == 0 || (nonws == 1 && (tok == '[' || tok == ']'));
    if discard {
        return None;
    }
    if n >= 2 && line.get_char(0) == ',' && line.get_char(1) == ' ' {
        let rest = line.substring_char(2, n);
        let out = rest.to_owned();
        proof {
            assert(out@ =~= line@.skip(2));
        }
        Some(out)
    } else {
        let out = line.to_owned();
        Some(out)
    }
}

} // verus!
