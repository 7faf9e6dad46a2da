use std::time::Duration;
use veil_proxy::wasm::queue_notify::{
    get_queue_stats, get_queue_subscribers, notify_queue_subscribers, register_queue_name,
    resolve_queue_name, subscribe_to_queue, unsubscribe_from_all_queues, unsubscribe_from_queue,
    QueueSubscriptionRegistry,
};
use veil_proxy::wasm::tick_manager::{
    get_due_ticks, get_min_tick_period, get_tick_stats, process_ticks, register_tick, TickRegistry,
};

const MS: u64 = 1_000_000;

#[test]
fn test_subscribe_to_queue() {
    let mut registry = QueueSubscriptionRegistry::new();
    subscribe_to_queue(&mut registry, "test_module_sub", 100);

    let subscribers = get_queue_subscribers(&registry, 100);
    assert!(subscribers.contains(&"test_module_sub".to_string()));

    unsubscribe_from_queue(&mut registry, "test_module_sub", 100);
}

#[test]
fn test_unsubscribe_from_all() {
    let mut registry = QueueSubscriptionRegistry::new();
    subscribe_to_queue(&mut registry, "test_module_unsub", 200);
    subscribe_to_queue(&mut registry, "test_module_unsub", 201);

    unsubscribe_from_all_queues(&mut registry, "test_module_unsub");

    assert!(!get_queue_subscribers(&registry, 200).contains(&"test_module_unsub".to_string()));
    assert!(!get_queue_subscribers(&registry, 201).contains(&"test_module_unsub".to_string()));
}

#[test]
fn test_queue_name_resolution() {
    let mut registry = QueueSubscriptionRegistry::new();
    register_queue_name(&mut registry, "my.queue.name", 300);

    let id = resolve_queue_name(&registry, "my.queue.name");
    assert_eq!(id, Some(300));

    let unknown = resolve_queue_name(&registry, "unknown.queue");
    assert_eq!(unknown, None);
}

#[test]
fn test_queue_stats() {
    let mut registry = QueueSubscriptionRegistry::new();
    subscribe_to_queue(&mut registry, "stats_module_1", 400);
    subscribe_to_queue(&mut registry, "stats_module_2", 400);
    register_queue_name(&mut registry, "stats.queue", 400);

    let stats = get_queue_stats(&registry);
    assert!(stats.registered_queues >= 1);
    assert!(stats.queues_with_subscribers >= 1);

    unsubscribe_from_queue(&mut registry, "stats_module_1", 400);
    unsubscribe_from_queue(&mut registry, "stats_module_2", 400);
}

#[test]
fn test_register_tick() {
    let mut registry = TickRegistry::new();
    register_tick(&mut registry, "test_module_tick", 1000, 0);

    let stats = get_tick_stats(&registry);
    assert!(stats.registered_modules >= 1);

    register_tick(&mut registry, "test_module_tick", 0, 0);
}

#[test]
fn test_get_min_tick_period() {
    let mut registry = TickRegistry::new();
    register_tick(&mut registry, "test_fast", 100, 0);
    register_tick(&mut registry, "test_slow", 5000, 0);

    let min = get_min_tick_period(&registry);
    assert!(min.is_some());
    assert!(min.unwrap().as_millis() <= 5000);

    register_tick(&mut registry, "test_fast", 0, 0);
    register_tick(&mut registry, "test_slow", 0, 0);
}

#[test]
fn test_tick_stats() {
    let mut registry = TickRegistry::new();
    register_tick(&mut registry, "stats_test_1", 500, 0);
    register_tick(&mut registry, "stats_test_2", 1000, 0);

    let stats = get_tick_stats(&registry);
    assert!(stats.registered_modules >= 2);
    assert!(stats.min_period_ms.is_some());
    assert!(stats.max_period_ms.is_some());

    register_tick(&mut registry, "stats_test_1", 0, 0);
    register_tick(&mut registry, "stats_test_2", 0, 0);
}

#[test]
fn test_subscriptions_exact() {
    let mut registry = QueueSubscriptionRegistry::default();
    subscribe_to_queue(&mut registry, "a", 1);
    subscribe_to_queue(&mut registry, "b", 1);
    subscribe_to_queue(&mut registry, "a", 1);
    subscribe_to_queue(&mut registry, "a", 2);
    assert_eq!(get_queue_subscribers(&registry, 1), vec!["a", "b"]);
    assert_eq!(get_queue_subscribers(&registry, 2), vec!["a"]);
    assert_eq!(get_queue_subscribers(&registry, 3), Vec::<String>::new());
    assert_eq!(notify_queue_subscribers(&registry, 1), vec!["a", "b"]);
    let stats = get_queue_stats(&registry);
    assert_eq!(stats.registered_queues, 0);
    assert_eq!(stats.queues_with_subscribers, 2);
    assert_eq!(stats.total_subscriptions, 3);
    unsubscribe_from_queue(&mut registry, "a", 1);
    unsubscribe_from_queue(&mut registry, "zz", 1);
    unsubscribe_from_queue(&mut registry, "a", 9);
    assert_eq!(get_queue_subscribers(&registry, 1), vec!["b"]);
    assert_eq!(get_queue_subscribers(&registry, 2), vec!["a"]);
    unsubscribe_from_all_queues(&mut registry, "a");
    assert_eq!(get_queue_subscribers(&registry, 2), Vec::<String>::new());
    let stats = get_queue_stats(&registry);
    assert_eq!(stats.queues_with_subscribers, 2);
    assert_eq!(stats.total_subscriptions, 1);
}

#[test]
fn test_queue_names_exact() {
    let mut registry = QueueSubscriptionRegistry::new();
    register_queue_name(&mut registry, "q", 1);
    register_queue_name(&mut registry, "r", 2);
    register_queue_name(&mut registry, "q", 3);
    assert_eq!(resolve_queue_name(&registry, "q"), Some(3));
    assert_eq!(resolve_queue_name(&registry, "r"), Some(2));
    assert_eq!(resolve_queue_name(&registry, ""), None);
    assert_eq!(get_queue_stats(&registry).registered_queues, 2);
}

#[test]
fn test_due_ticks_exact() {
    let mut registry = TickRegistry::default();
    assert_eq!(get_min_tick_period(&registry), None);
    assert_eq!(get_tick_stats(&registry).registered_modules, 0);
    assert_eq!(get_tick_stats(&registry).min_period_ms, None);
    register_tick(&mut registry, "fast", 100, 0);
    register_tick(&mut registry, "slow", 250, 50 * MS);
    register_tick(&mut registry, "never", 0, 0);
    assert_eq!(get_due_ticks(&mut registry, 99 * MS + 999_999), Vec::<String>::new());
    assert_eq!(get_due_ticks(&mut registry, 100 * MS), vec!["fast"]);
    assert_eq!(get_due_ticks(&mut registry, 199 * MS), Vec::<String>::new());
    assert_eq!(get_due_ticks(&mut registry, 300 * MS), vec!["fast", "slow"]);
    assert_eq!(process_ticks(&mut registry, 300 * MS), Vec::<String>::new());
    assert_eq!(process_ticks(&mut registry, 10 * MS), Vec::<String>::new());
    assert_eq!(process_ticks(&mut registry, 400 * MS), vec!["fast"]);
    register_tick(&mut registry, "fast", 1000, 400 * MS);
    assert_eq!(process_ticks(&mut registry, 1399 * MS), vec!["slow"]);
    let stats = get_tick_stats(&registry);
    assert_eq!(stats.registered_modules, 2);
    assert_eq!(stats.min_period_ms, Some(250));
    assert_eq!(stats.max_period_ms, Some(1000));
    assert_eq!(get_min_tick_period(&registry), Some(Duration::from_millis(250)));
    register_tick(&mut registry, "slow", 0, 0);
    assert_eq!(get_min_tick_period(&registry), Some(Duration::from_secs(1)));
    register_tick(&mut registry, "unknown", 0, 0);
    assert_eq!(get_tick_stats(&registry).registered_modules, 1);
}
