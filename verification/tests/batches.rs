use trace_normalizer::batching::Batcher;
use trace_normalizer::pipeline::normalize_lines;
use trace_normalizer::pipeline::process_batch;

fn valid_lines(n: usize) -> Vec<String> {
    (0..n).map(|i| format!("{{\"n\":{}}}", i)).collect()
}

/// Runs the streaming pipeline — batcher, then per-batch transform — and
/// concatenates the batches' outputs, as the program does.
fn run_batched(input: &[String], cap: usize) -> (Vec<String>, usize) {
    let mut batcher = Batcher::new(cap);
    let mut out: Vec<String> = Vec::new();
    let mut errors = 0usize;
    let mut handle = |batch: Vec<String>| {
        let (lines, errs) = process_batch(&batch);
        out.extend(lines);
        errors += errs.len();
    };
    for line in input {
        if let Some(batch) = batcher.push(line) {
            handle(batch);
        }
    }
    if let Some(batch) = batcher.finish() {
        handle(batch);
    }
    (out, errors)
}

#[test]
fn batch_boundary_integrity() {
    for n in [1024usize, 1025, 2048] {
        let input = valid_lines(n);
        let (out, errors) = run_batched(&input, 1024);
        assert_eq!(errors, 0);
        assert_eq!(out.len(), n);
        let (whole, errs) = normalize_lines(&input);
        assert_eq!(errs.len(), 0);
        assert_eq!(whole, out);
    }
}

#[test]
fn malformed_line_resilience() {
    let mut input = valid_lines(1023);
    input.insert(500, "{broken".to_string());
    let (out, errs) = process_batch(&input);
    assert_eq!(out.len(), 1023);
    assert_eq!(errs.len(), 1);
    assert_eq!(errs[0].index, 500);
    assert!(!errs[0].message.is_empty());
    // the surviving lines keep their order
    for (i, line) in out.iter().enumerate() {
        let v: serde_json::Value = serde_json::from_str(line).unwrap();
        assert_eq!(v.get("n").unwrap().as_u64(), Some(i as u64));
    }
}

#[test]
fn order_preserved_whatever_the_batch_size() {
    let mut input = valid_lines(10);
    input.insert(0, "[".to_string());
    input.insert(4, ", {\"k\":\"v\"}".to_string());
    input.push("]".to_string());
    let (reference, ref_errors) = normalize_lines(&input);
    assert_eq!(ref_errors.len(), 0);
    assert_eq!(reference.len(), 11);
    for cap in [1usize, 2, 3, 7, 1024] {
        let (out, errors) = run_batched(&input, cap);
        assert_eq!(errors, 0);
        assert_eq!(out, reference);
    }
    // order within the output matches the input's order of records
    for (i, line) in reference.iter().enumerate() {
        let v: serde_json::Value = serde_json::from_str(line).unwrap();
        if i == 3 {
            assert_eq!(v.get("k").unwrap().as_str(), Some("v"));
        } else {
            let expect = if i < 3 { i } else { i - 1 };
            assert_eq!(v.get("n").unwrap().as_u64(), Some(expect as u64));
        }
    }
}

#[test]
fn reported_error_indices_count_cleaned_lines() {
    let input: Vec<String> = vec![
        "[".to_string(),
        "{\"a\":1}".to_string(),
        "nonsense".to_string(),
        ", {\"b\":2}".to_string(),
        "]".to_string(),
    ];
    let (out, errs) = normalize_lines(&input);
    assert_eq!(out.len(), 2);
    assert_eq!(errs.len(), 1);
    // "nonsense" is the second cleaned line
    assert_eq!(errs[0].index, 1);
}
