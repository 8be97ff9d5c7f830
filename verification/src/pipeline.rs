//! The transform stage: decode, normalize and re-encode each line of a
//! batch, in parallel, preserving input order.
//!
//! A line survives exactly when it parses as JSON and its fields are
//! shapes the rules can read (`line_ok`); the surviving output line then
//! carries exactly the transformed fields of its input line.  Per-line
//! failures — a line that is not JSON, a field of an unexpected shape —
//! are terminal for that one line only: it becomes an indexed diagnostic
//! while the rest of the batch goes through.

use vstd::prelude::*;
use crate::batching::cleaned_lines;
use crate::framing::clean_line;
use crate::framing::clean_line_spec;
use crate::json::json_error_message;
use crate::json::parse_json;
use crate::json::parse_ok;
use crate::json::parsed_fields;
use crate::json::to_json_string;
use crate::record::transform_value;
use crate::rules::FieldsModel;
use crate::rules::actions_model;
use crate::rules::apply_model;
use rayon::iter::IntoParallelRefIterator;
use rayon::iter::ParallelIterator;

verus! {

/// A line the pipeline owes an output for: it parses as one JSON value
/// and the rule set accepts its fields.
pub open spec fn line_ok(s: Seq<char>) -> bool {
    parse_ok(s) && actions_model(parsed_fields(s)) is Ok
}

/// The recognized fields of the output line a surviving input line gets:
/// its own fields with the rule set's actions carried out.
pub open spec fn out_fields(s: Seq<char>) -> FieldsModel {
    apply_model(parsed_fields(s), actions_model(parsed_fields(s))->Ok_0)
}

/// What one line's outcome must be: a drop for a line that is not JSON, a
/// survival exactly for a line the rules accept, and then an output line
/// carrying exactly the transformed fields.
pub open spec fn line_result_spec(s: Seq<char>, r: Result<String, String>) -> bool {
    &&& !parse_ok(s) ==> r is Err
    &&& parse_ok(s) ==> (r is Ok <==> actions_model(parsed_fields(s)) is Ok)
    &&& line_ok(s) ==> (r matches Ok(t) && parse_ok(t@) && parsed_fields(t@) == out_fields(s))
}

/// Decodes one cleaned line, applies the rule set, and re-encodes it.
/// `Err` holds the diagnostic for a dropped line.
pub fn process_line(line: &str) -> (r: Result<String, String>)
    ensures
        line_result_spec(line@, r),
{
    match parse_json(line) {
        Err(e) => Err(json_error_message(&e)),
        Ok(mut v) => {
            let report = transform_value(&mut v);
            match report.outcome {
                Err(shape) => Err(shape.describe()),
                Ok(_) => match to_json_string(&v) {
                    Ok(s) => Ok(s),
                    Err(e) => Err(json_error_message(&e)),
                },
            }
        },
    }
}

/// Relies on rayon's `ParallelIterator::map` and `collect` over the
/// indexed parallel iterator of a `Vec`: one result per line, in input
/// order, each computed by `process_line` on that line — so each result
/// meets `process_line`'s contract for its line.
#[verifier::external_body]
fn par_process_lines(lines: &Vec<String>) -> (r: Vec<Result<String, String>>)
    ensures
        r@.len() == lines@.len(),
        forall|i: int| 0 <= i < lines@.len() ==> line_result_spec(lines@[i]@, #[trigger] r@[i]),
{
    lines.par_iter().map(|s| process_line(s.as_str())).collect()
}

/// The surviving output lines among the per-line outcomes, in order.
pub open spec fn ok_outputs(rs: Seq<Result<String, String>>) -> Seq<Seq<char>>
    decreases rs.len(),
{
    if rs.len() == 0 {
        Seq::empty()
    } else {
        ok_outputs(rs.drop_last()) + match rs.last() {
            Ok(s) => seq![s@],
            Err(_) => Seq::<Seq<char>>::empty(),
        }
    }
}

/// The dropped lines among the per-line outcomes: each one's position and
/// diagnostic, in order.
pub open spec fn err_entries(rs: Seq<Result<String, String>>) -> Seq<(int, Seq<char>)>
    decreases rs.len(),
{
    if rs.len() == 0 {
        Seq::empty()
    } else {
        err_entries(rs.drop_last()) + match rs.last() {
            Ok(_) => Seq::<(int, Seq<char>)>::empty(),
            Err(m) => seq![(rs.len() - 1, m@)],
        }
    }
}

/// The lines the pipeline owes an output for, in order.
pub open spec fn ok_lines(ls: Seq<Seq<char>>) -> Seq<Seq<char>>
    decreases ls.len(),
{
    if ls.len() == 0 {
        Seq::empty()
    } else {
        ok_lines(ls.drop_last()) + if line_ok(ls.last()) {
            seq![ls.last()]
        } else {
            Seq::<Seq<char>>::empty()
        }
    }
}

/// Every outcome is either a surviving line or a diagnostic.
pub proof fn lemma_outcomes_split(rs: Seq<Result<String, String>>)
    ensures
        ok_outputs(rs).len() + err_entries(rs).len() == rs.len(),
    decreases rs.len(),
{
    if rs.len() > 0 {
        lemma_outcomes_split(rs.drop_last());
    }
}

/// The diagnostics point into the batch, in strictly increasing order,
/// and every line that is not valid JSON has one.
pub proof fn lemma_err_entries_shape(rs: Seq<Result<String, String>>)
    ensures
        forall|j: int|
            0 <= j < err_entries(rs).len() ==> 0 <= (#[trigger] err_entries(rs)[j]).0 < rs.len(),
        forall|j1: int, j2: int|
            0 <= j1 < j2 < err_entries(rs).len() ==> (#[trigger] err_entries(rs)[j1]).0 < (
            #[trigger] err_entries(rs)[j2]).0,
        forall|i: int|
            0 <= i < rs.len() && (#[trigger] rs[i]) is Err ==> exists|j: int|
                0 <= j < err_entries(rs).len() && (#[trigger] err_entries(rs)[j]).0 == i,
    decreases rs.len(),
{
    if rs.len() > 0 {
        let prefix = rs.drop_last();
        lemma_err_entries_shape(prefix);
        assert forall|i: int| 0 <= i < rs.len() && (#[trigger] rs[i]) is Err implies exists|
            j: int,
        | 0 <= j < err_entries(rs).len() && (#[trigger] err_entries(rs)[j]).0 == i by {
            if i < rs.len() - 1 {
                assert(prefix[i] == rs[i]);
                let j = choose|j: int|
                    0 <= j < err_entries(prefix).len() && (#[trigger] err_entries(prefix)[j]).0
                        == i;
                assert(err_entries(rs)[j].0 == i);
            } else {
                let j = err_entries(rs).len() - 1;
                assert(err_entries(rs)[j].0 == i);
            }
        }
    }
}

/// When every outcome meets `line_result_spec` for its line, the
/// surviving outputs are, in order, exactly the transformed forms of the
/// lines the pipeline owes an output for, and the diagnostics are exactly
/// the other lines.
proof fn lemma_outcomes_follow_lines(ls: Seq<Seq<char>>, rs: Seq<Result<String, String>>)
    requires
        rs.len() == ls.len(),
        forall|i: int| 0 <= i < ls.len() ==> line_result_spec(ls[i], #[trigger] rs[i]),
    ensures
        ok_outputs(rs).len() == ok_lines(ls).len(),
        forall|k: int|
            0 <= k < ok_outputs(rs).len() ==> parse_ok(#[trigger] ok_outputs(rs)[k])
                && parsed_fields(ok_outputs(rs)[k]) == out_fields(ok_lines(ls)[k]),
        forall|j: int|
            0 <= j < err_entries(rs).len() ==> !line_ok(ls[(#[trigger] err_entries(rs)[j]).0]),
        forall|i: int| 0 <= i < ls.len() && !line_ok(ls[i]) ==> (#[trigger] rs[i]) is Err,
    decreases ls.len(),
{
    if ls.len() > 0 {
        let lp = ls.drop_last();
        let rp = rs.drop_last();
        assert(forall|i: int| 0 <= i < lp.len() ==> line_result_spec(lp[i], #[trigger] rp[i]))
            by {
            assert(forall|i: int| 0 <= i < lp.len() ==> lp[i] == ls[i] && rp[i] == rs[i]);
        }
        lemma_outcomes_follow_lines(lp, rp);
        assert(line_result_spec(ls.last(), rs.last()));
        if line_ok(ls.last()) {
            assert(ok_outputs(rs) =~= ok_outputs(rp).push(rs.last()->Ok_0@));
            assert(ok_lines(ls) =~= ok_lines(lp).push(ls.last()));
            assert(err_entries(rs) =~= err_entries(rp));
            assert forall|j: int| 0 <= j < err_entries(rs).len() implies !line_ok(
                ls[(#[trigger] err_entries(rs)[j]).0],
            ) by {
                lemma_err_entries_shape(rp);
                assert(err_entries(rs)[j] == err_entries(rp)[j]);
                assert(ls[err_entries(rp)[j].0] == lp[err_entries(rp)[j].0]);
            }
            assert forall|k: int| 0 <= k < ok_outputs(rs).len() implies parse_ok(
                #[trigger] ok_outputs(rs)[k],
            ) && parsed_fields(ok_outputs(rs)[k]) == out_fields(ok_lines(ls)[k]) by {
                if k < ok_outputs(rp).len() {
                    assert(ok_outputs(rs)[k] == ok_outputs(rp)[k]);
                    assert(ok_lines(ls)[k] == ok_lines(lp)[k]);
                }
            }
        } else {
            assert(rs.last() is Err);
            assert(ok_outputs(rs) =~= ok_outputs(rp));
            assert(ok_lines(ls) =~= ok_lines(lp));
            assert(err_entries(rs) =~= err_entries(rp).push((rs.len() - 1, rs.last()->Err_0@)));
            assert forall|j: int| 0 <= j < err_entries(rs).len() implies !line_ok(
                ls[(#[trigger] err_entries(rs)[j]).0],
            ) by {
                if j < err_entries(rp).len() {
                    assert(err_entries(rs)[j] == err_entries(rp)[j]);
                    lemma_err_entries_shape(rp);
                    assert(ls[err_entries(rp)[j].0] == lp[err_entries(rp)[j].0]);
                }
            }
        }
    }
}

/// One dropped line's position in its batch and the diagnostic for it.
pub struct LineError {
    /// Position of the dropped line within the batch.
    pub index: usize,
    /// What went wrong with it.
    pub message: String,
}

/// Splits per-line outcomes into the surviving lines and the indexed
/// diagnostics, both in input order.
pub fn split_outcomes(rs: &Vec<Result<String, String>>) -> (r: (Vec<String>, Vec<LineError>))
    ensures
        r.0.deep_view() == ok_outputs(rs@),
        r.1@.len() == err_entries(rs@).len(),
        forall|j: int|
            0 <= j < r.1@.len() ==> (#[trigger] r.1@[j]).index as int == err_entries(rs@)[j].0
                && r.1@[j].message@ == err_entries(rs@)[j].1,
        r.0@.len() + r.1@.len() == rs@.len(),
{
    let mut out: Vec<String> = Vec::new();
    let mut errs: Vec<LineError> = Vec::new();
    let mut i: usize = 0;
    proof {
        assert(out.deep_view() =~= ok_outputs(rs@.take(0)));
        assert(err_entries(rs@.take(0)) =~= Seq::<(int, Seq<char>)>::empty());
    }
    while i < rs.len()
        invariant
            i <= rs@.len(),
            out.deep_view() == ok_outputs(rs@.take(i as int)),
            errs@.len() == err_entries(rs@.take(i as int)).len(),
            forall|j: int|
                0 <= j < errs@.len() ==> (#[trigger] errs@[j]).index as int == err_entries(
                    rs@.take(i as int),
                )[j].0 && errs@[j].message@ == err_entries(rs@.take(i as int))[j].1,
        decreases rs@.len() - i,
    {
        proof {
            assert(rs@.take(i + 1).drop_last() =~= rs@.take(i as int));
            assert(rs@.take(i + 1).last() == rs@[i as int]);
        }
        let ghost old_out = out.deep_view();
        match &rs[i] {
            Ok(s) => {
                out.push(s.clone());
                proof {
                    assert(out.deep_view() =~= old_out.push(s@));
                    assert(out.deep_view() =~= ok_outputs(rs@.take(i + 1)));
                }
            },
            Err(m) => {
                errs.push(LineError { index: i, message: m.clone() });
                proof {
                    assert(out.deep_view() =~= ok_outputs(rs@.take(i + 1)));
                }
            },
        }
        i += 1;
    }
    proof {
        assert(rs@.take(rs@.len() as int) =~= rs@);
        lemma_outcomes_split(rs@);
    }
    (out, errs)
}

/// Transforms one batch: every line is decoded, normalized and re-encoded
/// in parallel.  Exactly the lines the rules accept survive; the k-th
/// output line carries the transformed fields of the k-th accepted line,
/// in the batch's own order; every other line gets one indexed
/// diagnostic, the indexes strictly increasing.
pub fn process_batch(lines: &Vec<String>) -> (r: (Vec<String>, Vec<LineError>))
    ensures
        r.0@.len() + r.1@.len() == lines@.len(),
        r.0@.len() == ok_lines(lines.deep_view()).len(),
        forall|k: int|
            0 <= k < r.0@.len() ==> parse_ok((#[trigger] r.0@[k])@) && parsed_fields(r.0@[k]@)
                == out_fields(ok_lines(lines.deep_view())[k]),
        forall|j: int| 0 <= j < r.1@.len() ==> (#[trigger] r.1@[j]).index < lines@.len(),
        forall|j1: int, j2: int|
            0 <= j1 < j2 < r.1@.len() ==> (#[trigger] r.1@[j1]).index < (
            #[trigger] r.1@[j2]).index,
        forall|j: int|
            0 <= j < r.1@.len() ==> !line_ok(lines.deep_view()[(#[trigger] r.1@[j]).index as int]),
        forall|i: int|
            0 <= i < lines@.len() && !line_ok(lines.deep_view()[i]) ==> exists|j: int|
                0 <= j < r.1@.len() && (#[trigger] r.1@[j]).index == i,
{
    let ghost ld = lines.deep_view();
    proof {
        assert(forall|i: int| 0 <= i < lines@.len() ==> (#[trigger] lines@[i])@ == ld[i]);
    }
    let outcomes = par_process_lines(lines);
    let r = split_outcomes(&outcomes);
    proof {
        lemma_err_entries_shape(outcomes@);
        lemma_outcomes_follow_lines(ld, outcomes@);
        assert(forall|k: int|
            0 <= k < r.0@.len() ==> (#[trigger] r.0@[k])@ == r.0.deep_view()[k]);
        assert forall|i: int| 0 <= i < lines@.len() && !line_ok(ld[i]) implies exists|j: int|
            0 <= j < r.1@.len() && (#[trigger] r.1@[j]).index == i by {
            assert(outcomes@[i] is Err);
            let j = choose|j: int|
                0 <= j < err_entries(outcomes@).len() && (#[trigger] err_entries(outcomes@)[j]).0
                    == i;
            assert(r.1@[j].index == i);
        }
    }
    r
}

/// The whole normalization of an in-memory input, the batch boundaries
/// made invisible: framing artifacts are dropped, and of the cleaned
/// lines exactly those the rules accept survive, each output line
/// carrying the transformed fields of its line, in input order; every
/// other cleaned line is reported with its position among the cleaned
/// lines.
pub fn normalize_lines(lines: &Vec<String>) -> (r: (Vec<String>, Vec<LineError>))
    ensures
        r.0@.len() + r.1@.len() == cleaned_lines(lines.deep_view()).len(),
        r.0@.len() == ok_lines(cleaned_lines(lines.deep_view())).len(),
        forall|k: int|
            0 <= k < r.0@.len() ==> parse_ok((#[trigger] r.0@[k])@) && parsed_fields(r.0@[k]@)
                == out_fields(ok_lines(cleaned_lines(lines.deep_view()))[k]),
        forall|j: int|
            0 <= j < r.1@.len() ==> (#[trigger] r.1@[j]).index < cleaned_lines(
                lines.deep_view(),
            ).len(),
        forall|j1: int, j2: int|
            0 <= j1 < j2 < r.1@.len() ==> (#[trigger] r.1@[j1]).index < (
            #[trigger] r.1@[j2]).index,
        forall|j: int|
            0 <= j < r.1@.len() ==> !line_ok(
                cleaned_lines(lines.deep_view())[(#[trigger] r.1@[j]).index as int],
            ),
        forall|i: int|
            0 <= i < cleaned_lines(lines.deep_view()).len() && !line_ok(
                cleaned_lines(lines.deep_view())[i],
            ) ==> exists|j: int| 0 <= j < r.1@.len() && (#[trigger] r.1@[j]).index == i,
{
    let ghost all = lines.deep_view();
    let mut cleaned: Vec<String> = Vec::new();
    proof {
        assert(cleaned.deep_view() =~= cleaned_lines(all.take(0)));
    }
    let mut i: usize = 0;
    while i < lines.len()
        invariant
            i <= lines@.len(),
            all == lines.deep_view(),
            all.len() == lines@.len(),
            cleaned.deep_view() == cleaned_lines(all.take(i as int)),
        decreases lines@.len() - i,
    {
        proof {
            assert(all.take(i + 1).drop_last() =~= all.take(i as int));
            assert(all.take(i + 1).last() == all[i as int]);
            assert(lines@[i as int].deep_view() == all[i as int]);
        }
        let ghost old_cleaned = cleaned.deep_view();
        match clean_line(lines[i].as_str()) {
            Some(c) => {
                cleaned.push(c);
                proof {
                    assert(cleaned.deep_view() =~= old_cleaned.push(
                        clean_line_spec(all[i as int])->Some_0,
                    ));
                    assert(cleaned.deep_view() =~= cleaned_lines(all.take(i + 1)));
                }
            },
            None => {
                proof {
                    assert(cleaned.deep_view() =~= cleaned_lines(all.take(i + 1)));
                }
            },
        }
        i += 1;
    }
    proof {
        assert(all.take(all.len() as int) =~= all);
    }
    process_batch(&cleaned)
}

} // verus!
