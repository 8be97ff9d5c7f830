use trace_normalizer::rules::FdPathField;
use trace_normalizer::rules::MemFlagsField;
use trace_normalizer::rules::RecordFields;
use trace_normalizer::rules::RuleActions;
use trace_normalizer::rules::ShapeError;
use trace_normalizer::rules::SharingFlag;
use trace_normalizer::rules::contains_flag;
use trace_normalizer::rules::is_library_path;
use trace_normalizer::rules::map_private;
use trace_normalizer::rules::map_shared;
use trace_normalizer::rules::mmap_event;
use trace_normalizer::rules::rule_actions;
use trace_normalizer::rules::sentinel_host;
use trace_normalizer::rules::str_eq;
use trace_normalizer::rules::str_has_prefix;

fn plain_object() -> RecordFields {
    RecordFields {
        is_object: true,
        has_host: false,
        event: None,
        has_sharing_flags: false,
        mem_flags: MemFlagsField::Absent,
        fdpath: FdPathField::Absent,
    }
}

fn mmap_record(flags: &[&str], fdpath: FdPathField) -> RecordFields {
    RecordFields {
        is_object: true,
        has_host: true,
        event: Some(mmap_event().to_string()),
        has_sharing_flags: false,
        mem_flags: MemFlagsField::Flags(flags.iter().map(|s| s.to_string()).collect()),
        fdpath,
    }
}

#[test]
fn host_defaulted_when_absent() {
    let f = plain_object();
    assert_eq!(rule_actions(&f), Ok(RuleActions { set_host: true, set_sharing: None }));
}

#[test]
fn host_preserved_when_present() {
    let f = RecordFields { has_host: true, ..plain_object() };
    assert_eq!(rule_actions(&f), Ok(RuleActions { set_host: false, set_sharing: None }));
}

#[test]
fn host_not_set_on_non_object() {
    let f = RecordFields { is_object: false, ..plain_object() };
    assert_eq!(rule_actions(&f), Ok(RuleActions { set_host: false, set_sharing: None }));
}

#[test]
fn mmap_write_library_path_is_shared() {
    let f = mmap_record(&["PROT_WRITE"], FdPathField::Path("/usr/lib/libc.so".to_string()));
    let a = rule_actions(&f).unwrap();
    assert_eq!(a.set_sharing, Some(SharingFlag::Shared));
}

#[test]
fn mmap_write_other_path_is_private() {
    let f = mmap_record(
        &["PROT_READ", "PROT_WRITE"],
        FdPathField::Path("/home/user/a.out".to_string()),
    );
    let a = rule_actions(&f).unwrap();
    assert_eq!(a.set_sharing, Some(SharingFlag::Private));
}

#[test]
fn mmap_without_write_is_private_whatever_the_path() {
    let f = mmap_record(&["PROT_READ"], FdPathField::Path("/usr/lib/libc.so".to_string()));
    let a = rule_actions(&f).unwrap();
    assert_eq!(a.set_sharing, Some(SharingFlag::Private));
    // even with no path at all
    let g = mmap_record(&["PROT_READ"], FdPathField::Absent);
    assert_eq!(rule_actions(&g).unwrap().set_sharing, Some(SharingFlag::Private));
}

#[test]
fn mmap_existing_sharing_flags_left_alone() {
    let f = RecordFields {
        has_sharing_flags: true,
        ..mmap_record(&["PROT_WRITE"], FdPathField::Path("/usr/lib/libc.so".to_string()))
    };
    assert_eq!(rule_actions(&f), Ok(RuleActions { set_host: false, set_sharing: None }));
}

#[test]
fn mmap_rule_needs_an_object() {
    let f = RecordFields {
        is_object: false,
        ..mmap_record(&["PROT_WRITE"], FdPathField::Path("/usr/lib/libc.so".to_string()))
    };
    assert_eq!(rule_actions(&f), Ok(RuleActions { set_host: false, set_sharing: None }));
}

#[test]
fn mmap_other_event_left_alone() {
    let f = RecordFields {
        event: Some("audit:event:aue_open:".to_string()),
        ..mmap_record(&["PROT_WRITE"], FdPathField::Path("/usr/lib/libc.so".to_string()))
    };
    assert_eq!(rule_actions(&f), Ok(RuleActions { set_host: false, set_sharing: None }));
}

#[test]
fn mem_flags_not_array_is_a_shape_error() {
    let f = RecordFields {
        mem_flags: MemFlagsField::NotArray,
        ..mmap_record(&["PROT_WRITE"], FdPathField::Absent)
    };
    assert_eq!(rule_actions(&f), Err(ShapeError::MemFlagsNotArray));
}

#[test]
fn missing_fdpath_is_a_shape_error() {
    let f = mmap_record(&["PROT_WRITE"], FdPathField::Absent);
    assert_eq!(rule_actions(&f), Err(ShapeError::FdPathMissing));
}

#[test]
fn non_string_fdpath_is_a_shape_error() {
    let f = mmap_record(&["PROT_WRITE"], FdPathField::NotString);
    assert_eq!(rule_actions(&f), Err(ShapeError::FdPathNotString));
}

#[test]
fn library_path_prefixes() {
    assert!(is_library_path("/lib/ld.so"));
    assert!(is_library_path("/usr/local/lib/libx.so"));
    assert!(is_library_path("/usr/lib/libc.so"));
    assert!(!is_library_path("/home/user/a.out"));
    assert!(!is_library_path("/usr/libexec"));
    assert!(!is_library_path("/lib"));
}

#[test]
fn string_helpers() {
    assert!(str_has_prefix("/usr/lib/x", "/usr/lib/"));
    assert!(!str_has_prefix("/usr", "/usr/lib/"));
    assert!(str_eq("abc", "abc"));
    assert!(!str_eq("abc", "abd"));
    assert!(!str_eq("abc", "ab"));
    let flags = vec!["PROT_READ".to_string(), "PROT_WRITE".to_string()];
    assert!(contains_flag(&flags, "PROT_WRITE"));
    assert!(!contains_flag(&flags, "PROT_EXEC"));
}

#[test]
fn named_constants() {
    assert_eq!(sentinel_host(), "44444444-4444-4444-4444-444444444444");
    assert_eq!(mmap_event(), "audit:event:aue_mmap:");
    assert_eq!(map_shared(), "MAP_SHARED");
    assert_eq!(map_private(), "MAP_PRIVATE");
}
