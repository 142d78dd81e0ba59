use oyo_core::profile::{
    metric_label, module_key, parse_thread_selector, FunctionInfo, IdleClassifier, MetricKind, ThreadSelector,
};

fn info(name: &str, resource: Option<&str>, label: &str) -> FunctionInfo {
    FunctionInfo { name: name.to_string(), resource: resource.map(|r| r.to_string()), label: label.to_string() }
}

#[test]
fn idle_patterns_match_case_insensitively() {
    let c = IdleClassifier::new(vec!["EPOLL_wait".to_string(), "park".to_string()]);
    assert!(c.is_idle(&info("f", None, "libc::epoll_WAIT")));
    assert!(c.is_idle(&info("f", None, "std::thread::Park_timeout")));
    assert!(!c.is_idle(&info("f", None, "render_frame")));
    let none = IdleClassifier::new(Vec::new());
    assert!(!none.is_idle(&info("f", None, "epoll_wait")));
}

#[test]
fn thread_selector_reads_indices_and_names() {
    assert_eq!(parse_thread_selector("3"), ThreadSelector::Index(3));
    assert_eq!(parse_thread_selector("0042"), ThreadSelector::Index(42));
    assert_eq!(parse_thread_selector("main"), ThreadSelector::Name("main".to_string()));
    assert_eq!(parse_thread_selector("+5"), ThreadSelector::Name("+5".to_string()));
    assert_eq!(parse_thread_selector(""), ThreadSelector::Name(String::new()));
    assert_eq!(
        parse_thread_selector("99999999999999999999999"),
        ThreadSelector::Name("99999999999999999999999".to_string())
    );
}

#[test]
fn metric_labels() {
    assert_eq!(metric_label(MetricKind::Samples), "samples");
    assert_eq!(metric_label(MetricKind::Weight), "weight");
    assert_eq!(metric_label(MetricKind::Time), "time");
}

#[test]
fn module_keys_group_by_first_two_segments() {
    assert_eq!(module_key(&info("oyo_core::diff::DiffEngine::new", None, "x")), "oyo_core::diff");
    assert_eq!(module_key(&info("std::rt", Some("libstd"), "x")), "std::rt");
    assert_eq!(module_key(&info("a::", None, "x")), "a::");
    assert_eq!(module_key(&info("a:::b", None, "x")), "a:::b");
    assert_eq!(module_key(&info("memcpy", Some("libc.so"), "x")), "libc.so");
    assert_eq!(module_key(&info("memcpy", None, "x")), "memcpy");
}
