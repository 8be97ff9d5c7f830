use trace_normalizer::pipeline::process_line;
use trace_normalizer::record::extract_fields;
use trace_normalizer::record::transform_value;
use trace_normalizer::rules::SharingFlag;
use trace_normalizer::rules::sentinel_host;

fn parse(s: &str) -> serde_json::Value {
    serde_json::from_str(s).unwrap()
}

fn field<'a>(v: &'a serde_json::Value, key: &str) -> &'a serde_json::Value {
    v.get(key).unwrap()
}

fn sharing_marker(out: &str) -> String {
    let v = parse(out);
    let arr = field(&v, "arg_sharing_flags").as_array().unwrap();
    assert_eq!(arr.len(), 1);
    arr[0].as_str().unwrap().to_string()
}

#[test]
fn mmap_write_library_path_gets_shared_marker() {
    let input = "{\"event\":\"audit:event:aue_mmap:\",\"arg_mem_flags\":[\"PROT_WRITE\"],\
                 \"fdpath\":\"/usr/lib/libc.so\"}";
    let out = process_line(input).unwrap();
    assert_eq!(sharing_marker(&out), "MAP_SHARED");
    assert_eq!(field(&parse(&out), "host").as_str(), Some(sentinel_host()));
}

#[test]
fn mmap_write_home_path_gets_private_marker() {
    let input = "{\"event\":\"audit:event:aue_mmap:\",\"arg_mem_flags\":[\"PROT_WRITE\"],\
                 \"fdpath\":\"/home/user/a.out\"}";
    let out = process_line(input).unwrap();
    assert_eq!(sharing_marker(&out), "MAP_PRIVATE");
}

#[test]
fn mmap_read_only_gets_private_marker() {
    let input = "{\"event\":\"audit:event:aue_mmap:\",\"arg_mem_flags\":[\"PROT_READ\"],\
                 \"fdpath\":\"/usr/lib/libc.so\"}";
    let out = process_line(input).unwrap();
    assert_eq!(sharing_marker(&out), "MAP_PRIVATE");
}

#[test]
fn non_string_mem_flag_elements_are_ignored() {
    let input = "{\"event\":\"audit:event:aue_mmap:\",\"arg_mem_flags\":[5,\"PROT_READ\"],\
                 \"fdpath\":\"/usr/lib/libc.so\"}";
    let out = process_line(input).unwrap();
    assert_eq!(sharing_marker(&out), "MAP_PRIVATE");
}

#[test]
fn existing_sharing_flags_record_is_unchanged() {
    let input = "{\"arg_mem_flags\":[\"PROT_WRITE\"],\"arg_sharing_flags\":[\"MAP_SHARED\"],\
                 \"event\":\"audit:event:aue_mmap:\",\"fdpath\":\"/home/user/a.out\",\
                 \"host\":\"h1\"}";
    let mut v = parse(input);
    let before = serde_json::to_string(&v).unwrap();
    let report = transform_value(&mut v);
    let actions = report.outcome.unwrap();
    assert!(!actions.set_host);
    assert_eq!(actions.set_sharing, None);
    assert_eq!(serde_json::to_string(&v).unwrap(), before);
}

#[test]
fn host_defaulting_end_to_end() {
    let out = process_line("{\"event\":\"e\"}").unwrap();
    assert_eq!(field(&parse(&out), "host").as_str(), Some(sentinel_host()));
    let kept = process_line("{\"host\":\"real-host\"}").unwrap();
    assert_eq!(field(&parse(&kept), "host").as_str(), Some("real-host"));
}

#[test]
fn rule_set_is_idempotent_end_to_end() {
    let inputs = [
        "{\"event\":\"audit:event:aue_mmap:\",\"arg_mem_flags\":[\"PROT_WRITE\"],\
         \"fdpath\":\"/usr/lib/libc.so\"}",
        "{\"event\":\"audit:event:aue_mmap:\",\"arg_mem_flags\":[\"PROT_READ\"],\
         \"fdpath\":\"/x\"}",
        "{\"a\":1}",
        "{\"host\":\"h\",\"b\":[1,2]}",
    ];
    for input in inputs {
        let once = process_line(input).unwrap();
        let twice = process_line(&once).unwrap();
        assert_eq!(once, twice);
    }
}

#[test]
fn invalid_json_is_rejected() {
    assert!(process_line("{not json").is_err());
    assert!(process_line("{\"a\":1},").is_err());
}

#[test]
fn non_object_record_passes_through() {
    let out = process_line("42").unwrap();
    assert_eq!(out, "42");
    let arr = process_line("[1,2]").unwrap();
    assert_eq!(arr, "[1,2]");
}

#[test]
fn shape_errors_drop_only_that_line() {
    // arg_mem_flags present but not an array
    let bad_flags = "{\"event\":\"audit:event:aue_mmap:\",\"arg_mem_flags\":\"PROT_WRITE\"}";
    assert!(process_line(bad_flags).is_err());
    // write flag present but no fdpath
    let no_path = "{\"event\":\"audit:event:aue_mmap:\",\"arg_mem_flags\":[\"PROT_WRITE\"]}";
    assert!(process_line(no_path).is_err());
    // fdpath present but not a string
    let bad_path = "{\"event\":\"audit:event:aue_mmap:\",\"arg_mem_flags\":[\"PROT_WRITE\"],\
                    \"fdpath\":7}";
    assert!(process_line(bad_path).is_err());
}

#[test]
fn extracted_fields_reflect_the_record() {
    let v = parse(
        "{\"event\":\"audit:event:aue_mmap:\",\"arg_mem_flags\":[\"PROT_WRITE\"],\
         \"fdpath\":\"/usr/lib/libc.so\",\"host\":\"h\"}",
    );
    let f = extract_fields(&v);
    assert!(f.is_object);
    assert!(f.has_host);
    assert!(!f.has_sharing_flags);
    assert_eq!(f.event.as_deref(), Some("audit:event:aue_mmap:"));
    let mut w = v.clone();
    let report = transform_value(&mut w);
    assert_eq!(report.outcome.unwrap().set_sharing, Some(SharingFlag::Shared));
}
