use trace_normalizer::batching::Batcher;
use trace_normalizer::batching::make_batches;
use trace_normalizer::framing::clean_line;
use trace_normalizer::pipeline::normalize_lines;

fn lines(v: &[&str]) -> Vec<String> {
    v.iter().map(|s| s.to_string()).collect()
}

#[test]
fn clean_discards_framing_artifacts() {
    assert_eq!(clean_line(""), None);
    assert_eq!(clean_line("["), None);
    assert_eq!(clean_line("]"), None);
    assert_eq!(clean_line("   "), None);
    assert_eq!(clean_line("\t"), None);
    assert_eq!(clean_line(" [ "), None);
    assert_eq!(clean_line("] "), None);
}

#[test]
fn clean_strips_continuation_marker() {
    assert_eq!(clean_line(", {\"b\":2}"), Some("{\"b\":2}".to_string()));
    assert_eq!(clean_line("{\"a\":1}"), Some("{\"a\":1}".to_string()));
    // only the two-character marker at the start is stripped
    assert_eq!(clean_line(" , {\"b\":2}"), Some(" , {\"b\":2}".to_string()));
}

#[test]
fn framing_tolerance() {
    // an array-wrapped encoding normalizes to its two records
    let input = lines(&["[", "{\"a\":1}", ", {\"b\":2}", "]"]);
    let batches = make_batches(&input, 1024);
    assert_eq!(batches.len(), 1);
    assert_eq!(batches[0], lines(&["{\"a\":1}", "{\"b\":2}"]));

    let (out, errs) = normalize_lines(&input);
    assert_eq!(errs.len(), 0);
    assert_eq!(out.len(), 2);
    let first: serde_json::Value = serde_json::from_str(&out[0]).unwrap();
    let second: serde_json::Value = serde_json::from_str(&out[1]).unwrap();
    assert_eq!(first.get("a").unwrap().as_i64(), Some(1));
    assert_eq!(second.get("b").unwrap().as_i64(), Some(2));
    assert!(!out[0].contains('['));
}

#[test]
fn batcher_matches_whole_input_batching() {
    let input = lines(&["{\"a\":1}", "[", "{\"b\":2}", ", {\"c\":3}", "]", "{\"d\":4}"]);
    for cap in [1usize, 2, 3, 1024] {
        let mut batcher = Batcher::new(cap);
        let mut streamed: Vec<Vec<String>> = Vec::new();
        for line in &input {
            if let Some(batch) = batcher.push(line) {
                streamed.push(batch);
            }
        }
        if let Some(last) = batcher.finish() {
            streamed.push(last);
        }
        assert_eq!(streamed, make_batches(&input, cap));
    }
}

#[test]
fn batch_capacity_is_a_kibi_line() {
    assert_eq!(trace_normalizer::batching::BATCH_CAPACITY, 1024);
}

#[test]
fn batch_shapes() {
    let many: Vec<String> = (0..2048).map(|i| format!("{{\"n\":{}}}", i)).collect();
    let b1024 = make_batches(&many[..1024].to_vec(), 1024);
    assert_eq!(b1024.iter().map(Vec::len).collect::<Vec<_>>(), vec![1024]);
    let b1025 = make_batches(&many[..1025].to_vec(), 1024);
    assert_eq!(b1025.iter().map(Vec::len).collect::<Vec<_>>(), vec![1024, 1]);
    let b2048 = make_batches(&many, 1024);
    assert_eq!(b2048.iter().map(Vec::len).collect::<Vec<_>>(), vec![1024, 1024]);
}
