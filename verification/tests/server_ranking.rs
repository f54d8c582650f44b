use mitdx::server::{sort_by_latency, UNREACHABLE_LATENCY_MS};

#[test]
fn servers_sorted_by_latency_stably() {
    let results = vec![
        ("a".to_string(), 7709u16, 30u64),
        ("b".to_string(), 7709, UNREACHABLE_LATENCY_MS),
        ("c".to_string(), 7711, 12),
        ("d".to_string(), 7709, 30),
        ("e".to_string(), 7709, 12),
    ];
    let sorted = sort_by_latency(results);
    let names: Vec<&str> = sorted.iter().map(|r| r.0.as_str()).collect();
    assert_eq!(names, vec!["c", "e", "a", "d", "b"]);
    assert_eq!(sorted[4].2, 9999);
    assert_eq!(sorted[0].1, 7711);
}

#[test]
fn empty_server_list() {
    assert!(sort_by_latency(vec![]).is_empty());
}
