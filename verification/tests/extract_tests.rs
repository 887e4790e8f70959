use igra_status::extract::{
    count_built_block_lines, estimate_production_rate, extract_block_height,
    extract_block_number, extract_sync_percentage, sync_percentage_or_default,
};

fn lines(v: &[&str]) -> Vec<String> {
    v.iter().map(|s| s.to_string()).collect()
}

#[test]
fn no_marker_yields_no_height() {
    let tail = lines(&["starting up", "listening on 8080", "sync: 40%"]);
    assert_eq!(extract_block_height(&tail), None);
}

#[test]
fn empty_tail_yields_no_height() {
    let tail: Vec<String> = Vec::new();
    assert_eq!(extract_block_height(&tail), None);
}

#[test]
fn most_recent_matching_line_wins() {
    let tail = lines(&["Built block #100", "Built block #105", "noise"]);
    assert_eq!(extract_block_height(&tail), Some(105));
}

#[test]
fn non_digit_after_hash_is_skipped() {
    let tail = lines(&["Built block #7", "Built block #abc"]);
    assert_eq!(extract_block_height(&tail), Some(7));
}

#[test]
fn later_hash_with_digits_still_matches() {
    // The first `#` lacks a digit; a later one has digits, so the line
    // matches and yields its run.
    let tail = lines(&["Built block #x at #42"]);
    assert_eq!(extract_block_height(&tail), Some(42));
    assert_eq!(
        extract_block_number("Built block #x at #42"),
        Some("42".to_string())
    );
}

#[test]
fn hash_without_marker_does_not_match() {
    let tail = lines(&["issue #42 fixed"]);
    assert_eq!(extract_block_height(&tail), None);
}

#[test]
fn marker_without_hash_does_not_match() {
    let tail = lines(&["Built block but no number"]);
    assert_eq!(extract_block_height(&tail), None);
}

#[test]
fn overflowing_digits_yield_no_height() {
    let tail = lines(&["Built block #5", "Built block #99999999999999999999999"]);
    assert_eq!(extract_block_height(&tail), None);
}

#[test]
fn largest_height_is_kept() {
    let tail = lines(&["Built block #18446744073709551615"]);
    assert_eq!(extract_block_height(&tail), Some(u64::MAX));
}

#[test]
fn block_number_reads_digit_run_after_first_hash() {
    assert_eq!(
        extract_block_number("Built block #12345 in 3ms"),
        Some("12345".to_string())
    );
}

#[test]
fn block_number_empty_run_is_none() {
    assert_eq!(extract_block_number("Built block #abc"), None);
    assert_eq!(extract_block_number("## 5"), None);
    assert_eq!(extract_block_number("no hash at all"), None);
}

#[test]
fn sync_percentage_is_extracted() {
    let tail = lines(&["sync: 99.5%"]);
    let got = extract_sync_percentage(&tail).expect("a percentage");
    assert_eq!(got, "99.5");
    assert_eq!(got.parse::<f64>().unwrap(), 99.5);
}

#[test]
fn no_sync_info_yields_none() {
    let tail = lines(&["no sync info"]);
    assert_eq!(extract_sync_percentage(&tail), None);
}

#[test]
fn sync_line_without_percent_token_yields_none() {
    let tail = lines(&["sync in progress"]);
    assert_eq!(extract_sync_percentage(&tail), None);
}

#[test]
fn sync_marker_is_case_insensitive() {
    let tail = lines(&["SYNC progress 12.5%"]);
    assert_eq!(extract_sync_percentage(&tail), Some("12.5".to_string()));
    let tail2 = lines(&["Syncing 80%"]);
    assert_eq!(extract_sync_percentage(&tail2), Some("80".to_string()));
}

#[test]
fn float_shaped_percent_tokens_are_accepted() {
    let tail = lines(&["sync .5%"]);
    let got = extract_sync_percentage(&tail).expect("a percentage");
    assert_eq!(got, ".5");
    assert_eq!(got.parse::<f64>().unwrap(), 0.5);
    let tail = lines(&["sync -5%"]);
    assert_eq!(extract_sync_percentage(&tail), Some("-5".to_string()));
    let tail = lines(&["sync 1e2%"]);
    let got = extract_sync_percentage(&tail).expect("a percentage");
    assert_eq!(got, "1e2");
    assert_eq!(got.parse::<f64>().unwrap(), 100.0);
    let tail = lines(&["sync +3.25E-1%"]);
    let got = extract_sync_percentage(&tail).expect("a percentage");
    assert_eq!(got.parse::<f64>().unwrap(), 0.325);
}

#[test]
fn non_float_percent_tokens_are_skipped() {
    // Shapes the float parse rejects are skipped too.
    for line in ["sync 1e%", "sync .%", "sync 1e+%", "sync 5..2%", "sync e5%"] {
        let tail = lines(&[line]);
        assert_eq!(extract_sync_percentage(&tail), None, "line: {}", line);
    }
}

#[test]
fn malformed_percent_tokens_are_skipped() {
    let tail = lines(&["sync x% 12%% 34.5% 99%"]);
    assert_eq!(extract_sync_percentage(&tail), Some("34.5".to_string()));
}

#[test]
fn most_recent_sync_line_wins() {
    let tail = lines(&["sync 10%", "sync 55.5%", "other noise"]);
    assert_eq!(extract_sync_percentage(&tail), Some("55.5".to_string()));
}

#[test]
fn sync_default_substitutes_full_sync() {
    let tail = lines(&["nothing relevant"]);
    assert_eq!(sync_percentage_or_default(&tail), "100.0");
    assert_eq!(sync_percentage_or_default(&tail).parse::<f64>().unwrap(), 100.0);
    let tail2 = lines(&["sync 40%"]);
    assert_eq!(sync_percentage_or_default(&tail2), "40");
}

#[test]
fn built_block_lines_are_counted() {
    let tail = lines(&["Built block #1", "noise", "Built block #2", "Built block"]);
    assert_eq!(count_built_block_lines(&tail), 3);
    let empty: Vec<String> = Vec::new();
    assert_eq!(count_built_block_lines(&empty), 0);
}

#[test]
fn production_rate_is_count_over_window() {
    // 10 blocks over 5.0 minutes: 2.0 blocks per minute.
    assert_eq!(estimate_production_rate(10, 5000), 2000);
    // 0 blocks over 5.0 minutes: 0.0 blocks per minute.
    assert_eq!(estimate_production_rate(0, 5000), 0);
    // 1 block over 2.0 minutes: 0.5 blocks per minute.
    assert_eq!(estimate_production_rate(1, 2000), 500);
}

#[test]
fn extractors_are_idempotent() {
    let tail = lines(&["Built block #100", "sync 75.5%", "Built block #105"]);
    assert_eq!(extract_block_height(&tail), extract_block_height(&tail));
    assert_eq!(extract_sync_percentage(&tail), extract_sync_percentage(&tail));
    assert_eq!(count_built_block_lines(&tail), count_built_block_lines(&tail));
    assert_eq!(extract_block_height(&tail), Some(105));
    assert_eq!(extract_sync_percentage(&tail), Some("75.5".to_string()));
}
