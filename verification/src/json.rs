//! The boundary to serde_json.
//!
//! A record travels through the pipeline as a `serde_json::Value`, which
//! the verifier treats as opaque.  Its recognized contents are named:
//! `rec_fields` gives every value its model (a `rules::FieldsModel`), and
//! each function here makes one kind of access to the value — parse, read
//! a field, set a field, serialize — with a contract over that model.
//! Every contract in this module is trusted; each doc comment names the
//! serde_json items it relies on.

use vstd::prelude::*;
use crate::rules::FdPathField;
use crate::rules::FieldsModel;
use crate::rules::StrArrayModel;
use crate::rules::StrFieldModel;

verus! {

#[verifier::external_type_specification]
#[verifier::external_body]
pub struct ExValue(serde_json::Value);

#[verifier::external_type_specification]
#[verifier::external_body]
pub struct ExJsonError(serde_json::Error);

/// The recognized fields of a decoded record: what reading `host`,
/// `event`, `arg_sharing_flags`, `arg_mem_flags` and `fdpath` on the value
/// finds.  On a non-object every field reads as absent.
pub uninterp spec fn rec_fields(v: serde_json::Value) -> FieldsModel;

/// What `serde_json::Value::as_str` finds in a value: its text when it is
/// a JSON string, `None` for a value of any other type.
pub uninterp spec fn str_content(v: serde_json::Value) -> Option<Seq<char>>;

/// Whether serde_json accepts `s` as one JSON value.  Parsing is a
/// function of the text alone, so the outcome has a name the contracts
/// can share.
pub uninterp spec fn parse_ok(s: Seq<char>) -> bool;

/// The recognized fields of the value that `s` parses to (meaningful when
/// `parse_ok(s)` holds); a function of the text alone.
pub uninterp spec fn parsed_fields(s: Seq<char>) -> FieldsModel;

/// Relies on `serde_json::from_str::<Value>`: decodes one line of text as
/// one JSON value, `Err` exactly on text that is not valid JSON.
#[verifier::external_body]
pub(crate) fn parse_json(s: &str) -> (r: Result<serde_json::Value, serde_json::Error>)
    ensures
        r is Ok <==> parse_ok(s@),
        r matches Ok(v) ==> rec_fields(v) == parsed_fields(s@),
{
    serde_json::from_str::<serde_json::Value>(s)
}

/// Relies on `serde_json::Error`'s `Display` implementation (through
/// `ToString`): renders a parse error for the error channel.
#[verifier::external_body]
pub(crate) fn json_error_message(e: &serde_json::Error) -> (r: String) {
    e.to_string()
}

/// Relies on `serde_json::Value::is_object`: whether the value is a JSON
/// object.
#[verifier::external_body]
pub(crate) fn value_is_object(v: &serde_json::Value) -> (r: bool)
    ensures
        r == rec_fields(*v).is_object,
{
    v.is_object()
}

/// Relies on `serde_json::Value::get` with a string index: whether the
/// value is an object with a `host` field.
#[verifier::external_body]
pub(crate) fn has_host_field(v: &serde_json::Value) -> (r: bool)
    ensures
        r == !(rec_fields(*v).host is Absent),
{
    v.get("host").is_some()
}

/// Relies on `serde_json::Value::get` and `Value::as_str`: the text of the
/// `event` field when it is a JSON string, `None` when it is absent or of
/// another type.
#[verifier::external_body]
pub(crate) fn read_event_field(v: &serde_json::Value) -> (r: Option<String>)
    ensures
        match rec_fields(*v).event {
            StrFieldModel::Str(e) => r matches Some(t) && t@ == e,
            _ => r is None,
        },
{
    match v.get("event") {
        Some(x) => x.as_str().map(|s| s.to_owned()),
        None => None,
    }
}

/// Relies on `serde_json::Value::get` with a string index: whether the
/// value is an object with an `arg_sharing_flags` field.
#[verifier::external_body]
pub(crate) fn has_sharing_field(v: &serde_json::Value) -> (r: bool)
    ensures
        r == !(rec_fields(*v).sharing is Absent),
{
    v.get("arg_sharing_flags").is_some()
}

/// A field read that distinguishes an absent field from one that is
/// present but not an array.
pub enum ArrayField {
    /// No such field (or the value is not an object).
    Absent,
    /// The field is present but not an array.
    NotArray,
    /// The field is an array with these elements.
    Items(Vec<serde_json::Value>),
}

/// Relies on `serde_json::Value::get` and `Value::as_array`: the elements
/// of the `arg_mem_flags` field when it is an array, and otherwise which
/// of the two failing shapes was found.
#[verifier::external_body]
pub(crate) fn read_mem_flags_field(v: &serde_json::Value) -> (r: ArrayField)
    ensures
        match r {
            ArrayField::Absent => rec_fields(*v).mem is Absent,
            ArrayField::NotArray => rec_fields(*v).mem is NotArray,
            ArrayField::Items(items) => rec_fields(*v).mem matches StrArrayModel::Elems(es)
                && es.len() == items@.len() && (forall|i: int|
                0 <= i < es.len() ==> es[i] == str_content(#[trigger] items@[i])),
        },
{
    match v.get("arg_mem_flags") {
        None => ArrayField::Absent,
        Some(x) => match x.as_array() {
            Some(a) => ArrayField::Items(a.clone()),
            None => ArrayField::NotArray,
        },
    }
}

/// Relies on `serde_json::Value::get` and `Value::as_str`: the `fdpath`
/// field's text, or which of the two failing shapes was found.
#[verifier::external_body]
pub(crate) fn read_fdpath_field(v: &serde_json::Value) -> (r: FdPathField)
    ensures
        match rec_fields(*v).fdpath {
            StrFieldModel::Absent => r is Absent,
            StrFieldModel::NotString => r is NotString,
            StrFieldModel::Str(p) => r matches FdPathField::Path(q) && q@ == p,
        },
{
    match v.get("fdpath") {
        None => FdPathField::Absent,
        Some(x) => match x.as_str() {
            Some(s) => FdPathField::Path(s.to_owned()),
            None => FdPathField::NotString,
        },
    }
}

/// Relies on `serde_json::Value::as_str`: the text of a JSON string value,
/// `None` for a value of any other type.
#[verifier::external_body]
pub(crate) fn value_as_string(v: &serde_json::Value) -> (r: Option<String>)
    ensures
        match str_content(*v) {
            Some(s) => r matches Some(t) && t@ == s,
            None => r is None,
        },
{
    v.as_str().map(|s| s.to_owned())
}

/// Relies on `serde_json::Value::as_object_mut` and `Map::insert`: on an
/// object, binds `host` to the JSON string `val` and touches nothing
/// else; on anything else, does nothing.
#[verifier::external_body]
pub(crate) fn set_host_field(v: &mut serde_json::Value, val: &str)
    ensures
        rec_fields(*old(v)).is_object ==> rec_fields(*final(v)) == (FieldsModel {
            host: StrFieldModel::Str(val@),
            ..rec_fields(*old(v))
        }),
        !rec_fields(*old(v)).is_object ==> *final(v) == *old(v),
{
    if let Some(m) = v.as_object_mut() {
        m.insert("host".to_owned(), serde_json::Value::String(val.to_owned()));
    }
}

/// Relies on `serde_json::Value::as_object_mut` and `Map::insert`: on an
/// object, binds `arg_sharing_flags` to the one-element JSON array holding
/// the string `item` and touches nothing else; on anything else, does
/// nothing.
#[verifier::external_body]
pub(crate) fn set_sharing_field(v: &mut serde_json::Value, item: &str)
    ensures
        rec_fields(*old(v)).is_object ==> rec_fields(*final(v)) == (FieldsModel {
            sharing: StrArrayModel::Elems(seq![Some(item@)]),
            ..rec_fields(*old(v))
        }),
        !rec_fields(*old(v)).is_object ==> *final(v) == *old(v),
{
    if let Some(m) = v.as_object_mut() {
        let arr = vec![serde_json::Value::String(item.to_owned())];
        m.insert("arg_sharing_flags".to_owned(), serde_json::Value::Array(arr));
    }
}

/// Relies on `serde_json::to_string`: re-encodes the value as compact
/// JSON text.  For a `Value` this cannot fail — its maps have string
/// keys, its numbers are finite, and the writer is an in-memory vector —
/// and the emitted text parses back to an equal value, so in particular
/// to the same recognized fields.
#[verifier::external_body]
pub(crate) fn to_json_string(v: &serde_json::Value) -> (r: Result<String, serde_json::Error>)
    ensures
        r is Ok,
        r matches Ok(s) ==> parse_ok(s@) && parsed_fields(s@) == rec_fields(*v),
{
    serde_json::to_string(v)
}

} // verus!
