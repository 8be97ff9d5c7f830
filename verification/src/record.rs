//! Reading a decoded record's fields and carrying out the rule set's
//! decision on it.
//!
//! The record itself is an opaque JSON value whose recognized contents are
//! named by `json::rec_fields`.  This module pulls those fields out as
//! plain values (exactly: the extraction abstracts the record's model),
//! hands them to the verified decision in `rules`, and writes the decided
//! fields back — so that the record's model after a transform is exactly
//! `rules::apply_model` of its model before.

use vstd::prelude::*;
use crate::json::ArrayField;
use crate::json::has_host_field;
use crate::json::has_sharing_field;
use crate::json::read_event_field;
use crate::json::read_fdpath_field;
use crate::json::read_mem_flags_field;
use crate::json::rec_fields;
use crate::json::set_host_field;
use crate::json::set_sharing_field;
use crate::json::str_content;
use crate::json::value_as_string;
use crate::json::value_is_object;
use crate::rules::MemFlagsField;
use crate::rules::RecordFields;
use crate::rules::RuleActions;
use crate::rules::ShapeError;
use crate::rules::SharingFlag;
use crate::rules::abstracts;
use crate::rules::actions_model;
use crate::rules::apply_model;
use crate::rules::lemma_actions_bridge;
use crate::rules::map_private;
use crate::rules::map_shared;
use crate::rules::rule_actions;
use crate::rules::sentinel_host;
use crate::rules::some_strings;

verus! {

/// The string elements of a JSON array, in order.  An element of any
/// other type is left out: it can never equal a protection-flag name, so
/// the rules read the array and its string elements alike.
fn string_items(items: &Vec<serde_json::Value>) -> (r: Vec<String>)
    ensures
        r.deep_view() == some_strings(
            Seq::new(items@.len(), |i: int| str_content(items@[i])),
        ),
{
    let ghost es = Seq::new(items@.len(), |i: int| str_content(items@[i]));
    let mut out: Vec<String> = Vec::new();
    proof {
        assert(out.deep_view() =~= some_strings(es.take(0)));
    }
    let mut i: usize = 0;
    while i < items.len()
        invariant
            i <= items@.len(),
            es == Seq::new(items@.len(), |i: int| str_content(items@[i])),
            es.len() == items@.len(),
            out.deep_view() == some_strings(es.take(i as int)),
        decreases items@.len() - i,
    {
        proof {
            assert(es.take(i + 1).drop_last() =~= es.take(i as int));
            assert(es.take(i + 1).last() == es[i as int]);
        }
        let ghost old_out = out.deep_view();
        match value_as_string(&items[i]) {
            Some(s) => {
                out.push(s);
                proof {
                    assert(out.deep_view() =~= old_out.push(es[i as int]->Some_0));
                    assert(out.deep_view() =~= some_strings(es.take(i + 1)));
                }
            },
            None => {
                proof {
                    assert(out.deep_view() =~= some_strings(es.take(i + 1)));
                }
            },
        }
        i += 1;
    }
    proof {
        assert(es.take(es.len() as int) =~= es);
    }
    out
}

/// Reads the fields the rule set recognizes out of one decoded record,
/// faithfully to the record's model.
pub fn extract_fields(v: &serde_json::Value) -> (f: RecordFields)
    ensures
        abstracts(f, rec_fields(*v)),
{
    let is_object = value_is_object(v);
    let has_host = has_host_field(v);
    let event = read_event_field(v);
    let has_sharing_flags = has_sharing_field(v);
    let mem_flags = match read_mem_flags_field(v) {
        ArrayField::Absent => MemFlagsField::Absent,
        ArrayField::NotArray => MemFlagsField::NotArray,
        ArrayField::Items(items) => {
            let flags = string_items(&items);
            proof {
                let es = rec_fields(*v).mem->Elems_0;
                assert(es =~= Seq::new(items@.len(), |i: int| str_content(items@[i])));
            }
            MemFlagsField::Flags(flags)
        },
    };
    let fdpath = read_fdpath_field(v);
    RecordFields { is_object, has_host, event, has_sharing_flags, mem_flags, fdpath }
}

/// Writes the decided fields back onto the record: the sentinel host
/// where the host rule fired, and the derived one-element sharing-flags
/// array where the mmap rule fired.  The record's model afterward is
/// exactly `apply_model` of its model before.
pub fn apply_actions(v: &mut serde_json::Value, a: &RuleActions)
    ensures
        rec_fields(*final(v)) == apply_model(rec_fields(*old(v)), *a),
{
    let ghost m = rec_fields(*v);
    if a.set_host {
        set_host_field(v, sentinel_host());
    }
    let ghost m1 = rec_fields(*v);
    match a.set_sharing {
        Some(SharingFlag::Shared) => {
            set_sharing_field(v, map_shared());
        },
        Some(SharingFlag::Private) => {
            set_sharing_field(v, map_private());
        },
        None => (),
    }
    proof {
        assert(rec_fields(*v) =~= apply_model(m, *a));
    }
}

/// What one pass of the rule set over a record read and decided.
pub struct TransformReport {
    /// The fields as they were found on the record.
    pub fields: RecordFields,
    /// The decision: the actions that were carried out, or the shape
    /// error on which the record is dropped.
    pub outcome: Result<RuleActions, ShapeError>,
}

/// Applies the rule set to one decoded record in place.  The fields read
/// abstract the record's model, the outcome is exactly the rule set's
/// decision on that model, and on success the record's model becomes
/// exactly `apply_model` of it.  On a shape error the record is left
/// untouched, to be dropped by the caller; the run goes on.
pub fn transform_value(v: &mut serde_json::Value) -> (r: TransformReport)
    ensures
        abstracts(r.fields, rec_fields(*old(v))),
        r.outcome == actions_model(rec_fields(*old(v))),
        r.outcome matches Ok(a) ==> rec_fields(*final(v)) == apply_model(
            rec_fields(*old(v)),
            a,
        ),
        r.outcome is Err ==> *final(v) == *old(v),
{
    let ghost m = rec_fields(*v);
    let fields = extract_fields(v);
    let outcome = rule_actions(&fields);
    proof {
        lemma_actions_bridge(fields, m);
    }
    match &outcome {
        Ok(a) => apply_actions(v, a),
        Err(_) => (),
    }
    TransformReport { fields, outcome }
}

} // verus!
