use yastl::ThreadConfig;

#[test]
fn default_names() {
    let config = ThreadConfig::default();
    assert_eq!(config.worker_name(1), "worker-thread-1");
    assert_eq!(config.worker_stack_size(), None);
}

#[test]
fn configured_names() {
    let config = ThreadConfig::new().prefix(String::from("pool"));
    assert_eq!(config.worker_name(1), "pool-1");
    assert_eq!(config.worker_name(0), "pool-0");
    assert_eq!(config.worker_name(9), "pool-9");
    assert_eq!(config.worker_name(10), "pool-10");
    assert_eq!(config.worker_name(2345678), "pool-2345678");
    assert_eq!(config.worker_name(usize::MAX), format!("pool-{}", usize::MAX));
}

#[test]
fn an_empty_prefix_is_kept() {
    assert_eq!(ThreadConfig::new().prefix("").worker_name(3), "-3");
}

#[test]
fn settings_do_not_disturb_each_other() {
    let config = ThreadConfig::new().prefix("a").stack_size(4096).prefix("b");
    assert_eq!(config.worker_name(1), "b-1");
    assert_eq!(config.worker_stack_size(), Some(4096));
}
