//! The normalization rule set, as pure logic over a plain-value model of a
//! record's recognized fields.
//!
//! A record is a JSON value; the rules only ever read a handful of fields.
//! `RecordFields` holds exactly what the rules read, so the decision they
//! make — which fields to set, or that the record's fields have an
//! unexpected shape and the record must be dropped — is computed and
//! specified here without reference to the JSON representation.

use vstd::prelude::*;

verus! {

// ---------------------------------------------------------------------------
// Named constants of the rule set.
// ---------------------------------------------------------------------------

/// Sentinel host identifier given to records without host attribution.
pub open spec fn sentinel_host_spec() -> Seq<char> {
    "44444444-4444-4444-4444-444444444444"@
}

/// Sentinel host identifier given to records without host attribution.
pub fn sentinel_host() -> (s: &'static str)
    ensures
        s@ == sentinel_host_spec(),
{
    "44444444-4444-4444-4444-444444444444"
}

/// Event tag of an mmap call.
pub open spec fn mmap_event_spec() -> Seq<char> {
    "audit:event:aue_mmap:"@
}

/// Event tag of an mmap call.
pub fn mmap_event() -> (s: &'static str)
    ensures
        s@ == mmap_event_spec(),
{
    "audit:event:aue_mmap:"
}

/// The write memory-protection flag.
pub open spec fn prot_write_spec() -> Seq<char> {
    "PROT_WRITE"@
}

/// The write memory-protection flag.
pub fn prot_write() -> (s: &'static str)
    ensures
        s@ == prot_write_spec(),
{
    "PROT_WRITE"
}

/// Marker for a shared mapping.
pub open spec fn map_shared_spec() -> Seq<char> {
    "MAP_SHARED"@
}

/// Marker for a shared mapping.
pub fn map_shared() -> (s: &'static str)
    ensures
        s@ == map_shared_spec(),
{
    "MAP_SHARED"
}

/// Marker for a private mapping.
pub open spec fn map_private_spec() -> Seq<char> {
    "MAP_PRIVATE"@
}

/// Marker for a private mapping.
pub fn map_private() -> (s: &'static str)
    ensures
        s@ == map_private_spec(),
{
    "MAP_PRIVATE"
}

// ---------------------------------------------------------------------------
// Small string utilities, verified here so the rules need nothing from
// outside for their own logic.
// ---------------------------------------------------------------------------

/// `p` is a prefix of `s`.
pub open spec fn is_prefix_of(p: Seq<char>, s: Seq<char>) -> bool {
    p.len() <= s.len() && (forall|i: int| 0 <= i < p.len() ==> s[i] == p[i])
}

/// Whether `s` begins with `p`, compared character by character.
pub fn str_has_prefix(s: &str, p: &str) -> (r: bool)
    ensures
        r == is_prefix_of(p@, s@),
{
    let sl = s.unicode_len();
    let pl = p.unicode_len();
    if pl > sl {
        return false;
    }
    let mut i: usize = 0;
    while i < pl
        invariant
            pl <= sl,
            i <= pl,
            pl == p@.len(),
            sl == s@.len(),
            forall|j: int| 0 <= j < i ==> s@[j] == p@[j],
        decreases pl - i,
    {
        if s.get_char(i) != p.get_char(i) {
            return false;
        }
        i += 1;
    }
    true
}

/// Whether two string slices hold the same characters.
pub fn str_eq(a: &str, b: &str) -> (r: bool)
    ensures
        r == (a@ == b@),
{
    let al = a.unicode_len();
    let bl = b.unicode_len();
    if al != bl {
        return false;
    }
    let mut i: usize = 0;
    while i < al
        invariant
            i <= al,
            al == a@.len(),
            al == b@.len(),
            forall|j: int| 0 <= j < i ==> a@[j] == b@[j],
        decreases al - i,
    {
        if a.get_char(i) != b.get_char(i) {
            return false;
        }
        i += 1;
    }
    proof {
        assert(a@ =~= b@);
    }
    true
}

// ---------------------------------------------------------------------------
// The model of a record's recognized fields.
// ---------------------------------------------------------------------------

/// Shape of the `arg_mem_flags` field as found on a record.
///
/// `Flags` holds the string elements of the array; an element of another
/// JSON type can never equal a protection-flag name, so only the strings
/// matter to the rules.
pub enum MemFlagsField {
    /// The field is absent.
    Absent,
    /// The field is present but is not an array.
    NotArray,
    /// The field is an array; these are its string elements.
    Flags(Vec<String>),
}

/// Shape of the `fdpath` field as found on a record.
pub enum FdPathField {
    /// The field is absent.
    Absent,
    /// The field is present but is not a string.
    NotString,
    /// The field is this string.
    Path(String),
}

/// Everything the rule set reads from one record.
pub struct RecordFields {
    /// The record is a JSON object.  On anything else both rules are
    /// no-ops: a non-object record passes through unchanged.
    pub is_object: bool,
    /// The record has a `host` field, of whatever value.
    pub has_host: bool,
    /// The string value of the `event` field; `None` when the field is
    /// absent or not a string (either way no event tag matches).
    pub event: Option<String>,
    /// The record has an `arg_sharing_flags` field, of whatever value.
    pub has_sharing_flags: bool,
    /// The `arg_mem_flags` field.
    pub mem_flags: MemFlagsField,
    /// The `fdpath` field.
    pub fdpath: FdPathField,
}

/// The sharing classification the mmap rule derives.
#[derive(Clone, Copy, Debug, PartialEq, Eq)]
pub enum SharingFlag {
    Shared,
    Private,
}

/// What the rule set decides to do to a record.
#[derive(Clone, Copy, Debug, PartialEq, Eq)]
pub struct RuleActions {
    /// Set `host` to the sentinel value.
    pub set_host: bool,
    /// Set `arg_sharing_flags` to the one-element array with this marker.
    pub set_sharing: Option<SharingFlag>,
}

/// A field whose shape the mmap rule cannot work with; the record is
/// reported and dropped, never the run.
#[derive(Clone, Copy, Debug, PartialEq, Eq)]
pub enum ShapeError {
    /// `arg_mem_flags` is present but not an array.
    MemFlagsNotArray,
    /// The write flag is set but `fdpath` is absent.
    FdPathMissing,
    /// The write flag is set but `fdpath` is not a string.
    FdPathNotString,
}

/// The diagnostic line for each shape error.
pub open spec fn describe_spec(e: ShapeError) -> Seq<char> {
    match e {
        ShapeError::MemFlagsNotArray => "arg_mem_flags is not an array"@,
        ShapeError::FdPathMissing => "fdpath is missing on a writable mmap record"@,
        ShapeError::FdPathNotString => "fdpath is not a string"@,
    }
}

impl ShapeError {
    /// A diagnostic line for the error channel.
    pub fn describe(&self) -> (s: String)
        ensures
            s@ == describe_spec(*self),
    {
        match self {
            ShapeError::MemFlagsNotArray => "arg_mem_flags is not an array".to_owned(),
            ShapeError::FdPathMissing => "fdpath is missing on a writable mmap record".to_owned(),
            ShapeError::FdPathNotString => "fdpath is not a string".to_owned(),
        }
    }
}

// ---------------------------------------------------------------------------
// The rules.
// ---------------------------------------------------------------------------

/// The path of a shared library: one of the recognized library directories.
pub open spec fn is_library_path_spec(p: Seq<char>) -> bool {
    ||| is_prefix_of("/lib/"@, p)
    ||| is_prefix_of("/usr/local/lib/"@, p)
    ||| is_prefix_of("/usr/lib/"@, p)
}

/// Whether `p` begins with one of the recognized library directories.
pub fn is_library_path(p: &str) -> (r: bool)
    ensures
        r == is_library_path_spec(p@),
{
    str_has_prefix(p, "/lib/") || str_has_prefix(p, "/usr/local/lib/") || str_has_prefix(
        p,
        "/usr/lib/",
    )
}

/// One of the flag strings equals `t`.
pub open spec fn flags_contain(fs: Seq<String>, t: Seq<char>) -> bool {
    exists|i: int| 0 <= i < fs.len() && fs[i]@ == t
}

/// Whether one of the flag strings equals `t`.
pub fn contains_flag(fs: &Vec<String>, t: &str) -> (r: bool)
    ensures
        r == flags_contain(fs@, t@),
{
    let mut i: usize = 0;
    while i < fs.len()
        invariant
            i <= fs@.len(),
            forall|j: int| 0 <= j < i ==> fs@[j]@ != t@,
        decreases fs@.len() - i,
    {
        if str_eq(fs[i].as_str(), t) {
            assert(flags_contain(fs@, t@)) by {
                assert(fs@[i as int]@ == t@);
            }
            return true;
        }
        i += 1;
    }
    false
}

/// The host rule fires: the record is an object without a `host` field.
pub open spec fn host_action_spec(f: RecordFields) -> bool {
    f.is_object && !f.has_host
}

/// The guard of the mmap rule: the record is an object whose event is an
/// mmap call, no sharing flags were derived yet, and memory-protection
/// flags are present.
pub open spec fn mmap_guard_spec(f: RecordFields) -> bool {
    &&& f.is_object
    &&& f.event matches Some(e) && e@ == mmap_event_spec()
    &&& !f.has_sharing_flags
    &&& !(f.mem_flags is Absent)
}

/// What the mmap rule derives: `Ok(None)` when the rule does not fire,
/// `Ok(Some(_))` the flag it sets, `Err(_)` a field shape it cannot read.
pub open spec fn sharing_decision_spec(f: RecordFields) -> Result<
    Option<SharingFlag>,
    ShapeError,
> {
    if !mmap_guard_spec(f) {
        Ok(None)
    } else {
        match f.mem_flags {
            MemFlagsField::Absent => Ok(None),
            MemFlagsField::NotArray => Err(ShapeError::MemFlagsNotArray),
            MemFlagsField::Flags(fs) => {
                if flags_contain(fs@, prot_write_spec()) {
                    match f.fdpath {
                        FdPathField::Absent => Err(ShapeError::FdPathMissing),
                        FdPathField::NotString => Err(ShapeError::FdPathNotString),
                        FdPathField::Path(p) => Ok(
                            Some(
                                if is_library_path_spec(p@) {
                                    SharingFlag::Shared
                                } else {
                                    SharingFlag::Private
                                },
                            ),
                        ),
                    }
                } else {
                    Ok(Some(SharingFlag::Private))
                }
            },
        }
    }
}

/// Both rules together: what the rule set does to a record with these
/// fields, or the shape error on which the record is dropped.
pub open spec fn actions_spec(f: RecordFields) -> Result<RuleActions, ShapeError> {
    match sharing_decision_spec(f) {
        Ok(sh) => Ok(RuleActions { set_host: host_action_spec(f), set_sharing: sh }),
        Err(e) => Err(e),
    }
}

/// Computes the rule set's decision for a record with these fields.
pub fn rule_actions(f: &RecordFields) -> (r: Result<RuleActions, ShapeError>)
    ensures
        r == actions_spec(*f),
{
    let set_host = f.is_object && !f.has_host;
    let event_is_mmap = match &f.event {
        Some(e) => str_eq(e.as_str(), mmap_event()),
        None => false,
    };
    let mem_present = match &f.mem_flags {
        MemFlagsField::Absent => false,
        _ => true,
    };
    if !(f.is_object && event_is_mmap && !f.has_sharing_flags && mem_present) {
        return Ok(RuleActions { set_host, set_sharing: None });
    }
    match &f.mem_flags {
        MemFlagsField::Absent => Ok(RuleActions { set_host, set_sharing: None }),
        MemFlagsField::NotArray => Err(ShapeError::MemFlagsNotArray),
        MemFlagsField::Flags(fs) => {
            if contains_flag(fs, prot_write()) {
                match &f.fdpath {
                    FdPathField::Absent => Err(ShapeError::FdPathMissing),
                    FdPathField::NotString => Err(ShapeError::FdPathNotString),
                    FdPathField::Path(p) => {
                        let sh = if is_library_path(p.as_str()) {
                            SharingFlag::Shared
                        } else {
                            SharingFlag::Private
                        };
                        Ok(RuleActions { set_host, set_sharing: Some(sh) })
                    },
                }
            } else {
                Ok(RuleActions { set_host, set_sharing: Some(SharingFlag::Private) })
            }
        },
    }
}

// ---------------------------------------------------------------------------
// The model of a whole record, as the JSON boundary names it.
//
// `crate::json` gives every decoded record a ghost model of this type (the
// contents-name `rec_fields`); the contracts of the boundary functions
// speak over it, and the laws below say what the rule set does to it.
// ---------------------------------------------------------------------------

/// A recognized string-valued field of a record.
#[verifier::ext_equal]
pub enum StrFieldModel {
    /// The field is absent (or the record is not an object).
    Absent,
    /// The field is present but not a JSON string.
    NotString,
    /// The field is this JSON string.
    Str(Seq<char>),
}

/// A recognized array-valued field of a record.  `Elems` holds, for each
/// element in order, its text when it is a JSON string and `None` when it
/// is a value of any other type.
#[verifier::ext_equal]
pub enum StrArrayModel {
    /// The field is absent (or the record is not an object).
    Absent,
    /// The field is present but not a JSON array.
    NotArray,
    /// The field is an array with these elements.
    Elems(Seq<Option<Seq<char>>>),
}

/// Every recognized field of one record.
#[verifier::ext_equal]
pub struct FieldsModel {
    /// The record is a JSON object.
    pub is_object: bool,
    /// The `host` field.
    pub host: StrFieldModel,
    /// The `event` field.
    pub event: StrFieldModel,
    /// The `arg_sharing_flags` field.
    pub sharing: StrArrayModel,
    /// The `arg_mem_flags` field.
    pub mem: StrArrayModel,
    /// The `fdpath` field.
    pub fdpath: StrFieldModel,
}

/// One of the array's elements is the string `t`.
pub open spec fn elems_contain(es: Seq<Option<Seq<char>>>, t: Seq<char>) -> bool {
    exists|i: int| 0 <= i < es.len() && es[i] == Some(t)
}

/// The string elements of the array, in order.
pub open spec fn some_strings(es: Seq<Option<Seq<char>>>) -> Seq<Seq<char>>
    decreases es.len(),
{
    if es.len() == 0 {
        Seq::empty()
    } else {
        some_strings(es.drop_last()) + match es.last() {
            Some(s) => seq![s],
            None => Seq::<Seq<char>>::empty(),
        }
    }
}

/// A string is among the string elements exactly when the array holds it.
pub proof fn lemma_some_strings_membership(es: Seq<Option<Seq<char>>>, t: Seq<char>)
    ensures
        elems_contain(es, t) <==> (exists|k: int|
            0 <= k < some_strings(es).len() && some_strings(es)[k] == t),
    decreases es.len(),
{
    if es.len() > 0 {
        let prefix = es.drop_last();
        lemma_some_strings_membership(prefix, t);
        let ss = some_strings(es);
        let sp = some_strings(prefix);
        if elems_contain(es, t) {
            let i = choose|i: int| 0 <= i < es.len() && es[i] == Some(t);
            if i < es.len() - 1 {
                assert(prefix[i] == Some(t));
                assert(elems_contain(prefix, t));
                let k = choose|k: int| 0 <= k < sp.len() && sp[k] == t;
                assert(ss[k] == t);
            } else {
                assert(ss[ss.len() - 1] == t);
            }
        }
        if exists|k: int| 0 <= k < ss.len() && ss[k] == t {
            let k = choose|k: int| 0 <= k < ss.len() && ss[k] == t;
            match es.last() {
                Some(s) => {
                    if k < sp.len() {
                        assert(sp[k] == t);
                        let i = choose|i: int| 0 <= i < prefix.len() && prefix[i] == Some(t);
                        assert(es[i] == Some(t));
                        assert(elems_contain(es, t));
                    } else {
                        assert(es[es.len() - 1] == Some(t));
                        assert(elems_contain(es, t));
                    }
                },
                None => {
                    assert(sp[k] == t);
                    let i = choose|i: int| 0 <= i < prefix.len() && prefix[i] == Some(t);
                    assert(es[i] == Some(t));
                    assert(elems_contain(es, t));
                },
            }
        }
    }
}

/// The host rule fires on the model: the record is an object without a
/// `host` field.
pub open spec fn host_action_model(m: FieldsModel) -> bool {
    m.is_object && m.host is Absent
}

/// The guard of the mmap rule on the model.
pub open spec fn mmap_guard_model(m: FieldsModel) -> bool {
    &&& m.is_object
    &&& m.event matches StrFieldModel::Str(e) && e == mmap_event_spec()
    &&& m.sharing is Absent
    &&& !(m.mem is Absent)
}

/// What the mmap rule derives from a record's model.
pub open spec fn sharing_decision_model(m: FieldsModel) -> Result<
    Option<SharingFlag>,
    ShapeError,
> {
    if !mmap_guard_model(m) {
        Ok(None)
    } else {
        match m.mem {
            StrArrayModel::Absent => Ok(None),
            StrArrayModel::NotArray => Err(ShapeError::MemFlagsNotArray),
            StrArrayModel::Elems(es) => {
                if elems_contain(es, prot_write_spec()) {
                    match m.fdpath {
                        StrFieldModel::Absent => Err(ShapeError::FdPathMissing),
                        StrFieldModel::NotString => Err(ShapeError::FdPathNotString),
                        StrFieldModel::Str(p) => Ok(
                            Some(
                                if is_library_path_spec(p) {
                                    SharingFlag::Shared
                                } else {
                                    SharingFlag::Private
                                },
                            ),
                        ),
                    }
                } else {
                    Ok(Some(SharingFlag::Private))
                }
            },
        }
    }
}

/// Both rules together on the model: the actions taken on a record with
/// this model, or the shape error on which the record is dropped.
pub open spec fn actions_model(m: FieldsModel) -> Result<RuleActions, ShapeError> {
    match sharing_decision_model(m) {
        Ok(sh) => Ok(RuleActions { set_host: host_action_model(m), set_sharing: sh }),
        Err(e) => Err(e),
    }
}

/// The marker string written for each derived sharing flag.
pub open spec fn sharing_marker_spec(sh: SharingFlag) -> Seq<char> {
    match sh {
        SharingFlag::Shared => map_shared_spec(),
        SharingFlag::Private => map_private_spec(),
    }
}

/// How carrying the actions out changes a record's model: `host` becomes
/// the sentinel where the host rule fired, `arg_sharing_flags` becomes the
/// one-element array with the derived marker where the mmap rule fired,
/// and nothing else changes.  On a non-object record nothing changes.
pub open spec fn apply_model(m: FieldsModel, a: RuleActions) -> FieldsModel {
    FieldsModel {
        host: if a.set_host && m.is_object {
            StrFieldModel::Str(sentinel_host_spec())
        } else {
            m.host
        },
        sharing: match a.set_sharing {
            Some(sh) => if m.is_object {
                StrArrayModel::Elems(seq![Some(sharing_marker_spec(sh))])
            } else {
                m.sharing
            },
            None => m.sharing,
        },
        ..m
    }
}

/// `RecordFields` reads a model faithfully: presence for `host` and
/// `arg_sharing_flags`, the text of a string `event`, the string elements
/// of `arg_mem_flags`, and the `fdpath` shape.
pub open spec fn abstracts(f: RecordFields, m: FieldsModel) -> bool {
    &&& f.is_object == m.is_object
    &&& f.has_host == !(m.host is Absent)
    &&& match m.event {
        StrFieldModel::Str(e) => f.event matches Some(t) && t@ == e,
        _ => f.event is None,
    }
    &&& f.has_sharing_flags == !(m.sharing is Absent)
    &&& match m.mem {
        StrArrayModel::Absent => f.mem_flags is Absent,
        StrArrayModel::NotArray => f.mem_flags is NotArray,
        StrArrayModel::Elems(es) => f.mem_flags matches MemFlagsField::Flags(fs)
            && fs.deep_view() == some_strings(es),
    }
    &&& match m.fdpath {
        StrFieldModel::Absent => f.fdpath is Absent,
        StrFieldModel::NotString => f.fdpath is NotString,
        StrFieldModel::Str(p) => f.fdpath matches FdPathField::Path(q) && q@ == p,
    }
}

/// The decision on faithfully read fields is the decision on the model.
pub proof fn lemma_actions_bridge(f: RecordFields, m: FieldsModel)
    requires
        abstracts(f, m),
    ensures
        actions_spec(f) == actions_model(m),
{
    assert(host_action_spec(f) == host_action_model(m));
    assert(mmap_guard_spec(f) == mmap_guard_model(m));
    if mmap_guard_model(m) {
        match m.mem {
            StrArrayModel::Absent => (),
            StrArrayModel::NotArray => (),
            StrArrayModel::Elems(es) => {
                let fs = f.mem_flags->Flags_0;
                lemma_some_strings_membership(es, prot_write_spec());
                assert(forall|k: int|
                    0 <= k < fs.deep_view().len() ==> fs.deep_view()[k] == fs@[k]@);
                assert(flags_contain(fs@, prot_write_spec()) == elems_contain(
                    es,
                    prot_write_spec(),
                )) by {
                    if flags_contain(fs@, prot_write_spec()) {
                        let i = choose|i: int| 0 <= i < fs@.len() && fs@[i]@ == prot_write_spec();
                        assert(some_strings(es)[i] == prot_write_spec());
                    }
                    if elems_contain(es, prot_write_spec()) {
                        let k = choose|k: int|
                            0 <= k < some_strings(es).len() && some_strings(es)[k]
                                == prot_write_spec();
                        assert(fs@[k]@ == prot_write_spec());
                    }
                }
            },
        }
    }
}

// ---------------------------------------------------------------------------
// Laws of the rule set.
// ---------------------------------------------------------------------------

/// Idempotence: applying the rule set twice to any record yields the same
/// result as applying it once.  A second pass over a transformed record
/// decides to do nothing, and carrying out the empty decision changes
/// nothing.
pub proof fn lemma_rules_idempotent(m: FieldsModel)
    ensures
        actions_model(m) matches Ok(a) ==> {
            &&& actions_model(apply_model(m, a)) == Ok::<RuleActions, ShapeError>(
                RuleActions { set_host: false, set_sharing: None },
            )
            &&& apply_model(apply_model(m, a), RuleActions { set_host: false, set_sharing: None })
                == apply_model(m, a)
        },
{
    if actions_model(m) is Ok {
        let a = actions_model(m)->Ok_0;
        let m2 = apply_model(m, a);
        assert(apply_model(m2, RuleActions { set_host: false, set_sharing: None }) =~= m2);
    }
}

/// Host defaulting: the host rule fires exactly on an object record
/// without a `host` field, and then the record gains the sentinel value;
/// a record with any existing `host` value keeps it untouched.
pub proof fn lemma_host_defaulting(m: FieldsModel)
    ensures
        actions_model(m) matches Ok(a) ==> (a.set_host <==> (m.is_object && m.host is Absent)),
        actions_model(m) matches Ok(a) ==> (a.set_host ==> apply_model(m, a).host
            == StrFieldModel::Str(sentinel_host_spec())),
        actions_model(m) matches Ok(a) ==> (!(m.host is Absent) ==> apply_model(m, a).host
            == m.host),
        actions_model(m) matches Ok(a) ==> (m.is_object ==> !(apply_model(m, a).host is Absent)),
        actions_model(m) is Err ==> !(m.mem is Absent),
{
}

/// How the sharing flag is derived when the mmap rule fires on readable
/// flags: with the write flag and a library path the mapping is shared;
/// with the write flag and any other path, or without the write flag, it
/// is private.
pub proof fn lemma_sharing_flag_derivation(m: FieldsModel)
    ensures
        mmap_guard_model(m) ==> (m.mem matches StrArrayModel::Elems(es) ==> {
            if !elems_contain(es, prot_write_spec()) {
                sharing_decision_model(m) == Ok::<Option<SharingFlag>, ShapeError>(
                    Some(SharingFlag::Private),
                )
            } else {
                m.fdpath matches StrFieldModel::Str(p) ==> sharing_decision_model(m) == Ok::<
                    Option<SharingFlag>,
                    ShapeError,
                >(
                    Some(
                        if is_library_path_spec(p) {
                            SharingFlag::Shared
                        } else {
                            SharingFlag::Private
                        },
                    ),
                )
            }
        }),
{
}

/// A record already carrying `arg_sharing_flags` is never recomputed: the
/// mmap rule neither acts on it nor drops it, and the field keeps its
/// value.
pub proof fn lemma_sharing_never_recomputed(m: FieldsModel)
    ensures
        !(m.sharing is Absent) ==> actions_model(m) == Ok::<RuleActions, ShapeError>(
            RuleActions { set_host: host_action_model(m), set_sharing: None },
        ),
        !(m.sharing is Absent) ==> apply_model(m, actions_model(m)->Ok_0).sharing == m.sharing,
{
}

} // verus!
