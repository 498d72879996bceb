use parallel_matrix::{AmapMetrics, Metrics};

fn sorted(mut v: Vec<(String, u64)>) -> Vec<(String, u64)> {
    v.sort();
    v
}

#[test]
fn counters_start_empty() {
    let m = Metrics::new();
    assert!(m.snapshot().is_empty());
}

#[test]
fn inc_and_dec_move_counts_by_one() {
    let mut m = Metrics::new();
    m.inc("req.page.1");
    m.inc("req.page.1");
    m.inc("req.page.2");
    m.inc("call.thread.worker.0");
    m.dec("req.page.1");
    assert_eq!(
        sorted(m.snapshot()),
        vec![
            ("call.thread.worker.0".to_string(), 1),
            ("req.page.1".to_string(), 1),
            ("req.page.2".to_string(), 1),
        ]
    );
    m.dec("req.page.1");
    assert_eq!(
        sorted(m.snapshot()),
        vec![
            ("call.thread.worker.0".to_string(), 1),
            ("req.page.1".to_string(), 0),
            ("req.page.2".to_string(), 1),
        ]
    );
}

#[test]
fn fixed_counters_start_at_zero_once_per_name() {
    let m = AmapMetrics::new(&["a", "b", "a"]);
    assert_eq!(m.get("a"), Some(0));
    assert_eq!(m.get("b"), Some(0));
    assert_eq!(m.get("c"), None);
}

#[test]
fn fixed_counters_count_and_wrap() {
    let mut m = AmapMetrics::new(&["hits", "misses"]);
    m.inc("hits");
    m.inc("hits");
    m.inc("misses");
    assert_eq!(m.get("hits"), Some(2));
    assert_eq!(m.get("misses"), Some(1));
}

#[test]
fn counters_render_one_line_each() {
    let mut m = Metrics::new();
    m.inc("a");
    m.inc("b");
    m.inc("b");
    let text = m.to_string();
    let mut lines: Vec<&str> = text.lines().collect();
    lines.sort();
    assert_eq!(lines, vec!["a: 1", "b: 2"]);
    assert!(text.ends_with('\n'));
    assert_eq!(Metrics::new().to_string(), "");
}

#[test]
fn fixed_counters_render_one_line_each() {
    let mut m = AmapMetrics::new(&["x", "y"]);
    m.inc("y");
    let text = m.to_string();
    let mut lines: Vec<&str> = text.lines().collect();
    lines.sort();
    assert_eq!(lines, vec!["x: 0", "y: 1"]);
}
