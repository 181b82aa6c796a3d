use replfs::dev_listener::{DeviceRegistry, THREAD_DELAY_NANOS};
use replfs::repl::SessionError;

fn names(list: &[&str]) -> Vec<String> {
    list.iter().map(|s| s.to_string()).collect()
}

#[test]
fn new_registry_is_empty() {
    let registry: DeviceRegistry<u32> = DeviceRegistry::new();
    assert!(!registry.contains("/dev/ttyACM0"));
    assert!(!registry.is_blacklisted("/dev/ttyACM0"));
    assert!(registry.get("/dev/ttyACM0").is_none());
    assert_eq!(THREAD_DELAY_NANOS, 50_000_000);
}

#[test]
fn candidates_are_the_unknown_visible_devices_in_order() {
    let mut registry: DeviceRegistry<u32> = DeviceRegistry::new();
    let visible = names(&["b", "a", "b", "c", "a"]);
    assert_eq!(registry.candidates(&visible), names(&["b", "a", "c"]));
    registry.finish_pass(
        &visible,
        vec![("a".to_string(), Ok(1)), ("c".to_string(), Err(SessionError::Connect))],
    );
    assert_eq!(registry.candidates(&visible), names(&["b"]));
    assert_eq!(registry.candidates(&names(&[])), names(&[]));
}

#[test]
fn present_device_keeps_its_session() {
    let mut registry: DeviceRegistry<u32> = DeviceRegistry::new();
    let visible = names(&["a", "b"]);
    registry.finish_pass(&visible, vec![("a".to_string(), Ok(7)), ("b".to_string(), Ok(8))]);
    assert_eq!(registry.get("a"), Some(&7));
    assert_eq!(registry.get("b"), Some(&8));
    assert_eq!(registry.candidates(&visible), names(&[]));
    registry.finish_pass(&visible, vec![("a".to_string(), Ok(70)), ("b".to_string(), Err(SessionError::Connect))]);
    assert_eq!(registry.get("a"), Some(&7));
    assert_eq!(registry.get("b"), Some(&8));
    assert!(!registry.is_blacklisted("b"));
}

#[test]
fn absent_device_is_forgotten() {
    let mut registry: DeviceRegistry<u32> = DeviceRegistry::new();
    registry.finish_pass(
        &names(&["a", "b", "c"]),
        vec![
            ("a".to_string(), Ok(1)),
            ("b".to_string(), Err(SessionError::Transport)),
            ("c".to_string(), Ok(3)),
        ],
    );
    assert!(registry.contains("a"));
    assert!(registry.is_blacklisted("b"));
    assert!(registry.contains("c"));
    registry.finish_pass(&names(&["c"]), Vec::new());
    assert!(!registry.contains("a"));
    assert!(registry.get("a").is_none());
    assert!(!registry.is_blacklisted("b"));
    assert!(!registry.contains("b"));
    assert_eq!(registry.get("c"), Some(&3));
}

#[test]
fn failed_device_waits_for_replug() {
    let mut registry: DeviceRegistry<u32> = DeviceRegistry::new();
    let attached = names(&["a"]);
    let detached = names(&[]);
    assert_eq!(registry.candidates(&attached), names(&["a"]));
    registry.finish_pass(&attached, vec![("a".to_string(), Err(SessionError::Connect))]);
    assert!(registry.is_blacklisted("a"));
    assert!(!registry.contains("a"));
    assert_eq!(registry.candidates(&attached), names(&[]));
    registry.finish_pass(&attached, Vec::new());
    assert!(registry.is_blacklisted("a"));
    assert_eq!(registry.candidates(&attached), names(&[]));
    registry.finish_pass(&detached, Vec::new());
    assert!(!registry.is_blacklisted("a"));
    assert_eq!(registry.candidates(&attached), names(&["a"]));
    registry.finish_pass(&attached, vec![("a".to_string(), Ok(5))]);
    assert_eq!(registry.get("a"), Some(&5));
    assert!(!registry.is_blacklisted("a"));
}

#[test]
fn outcome_for_an_invisible_device_is_dropped() {
    let mut registry: DeviceRegistry<u32> = DeviceRegistry::new();
    registry.finish_pass(
        &names(&["a"]),
        vec![("ghost".to_string(), Ok(9)), ("gone".to_string(), Err(SessionError::Connect))],
    );
    assert!(!registry.contains("ghost"));
    assert!(!registry.is_blacklisted("gone"));
    assert!(!registry.contains("a"));
}

#[test]
fn first_outcome_for_a_device_counts() {
    let mut registry: DeviceRegistry<u32> = DeviceRegistry::new();
    registry.finish_pass(
        &names(&["a", "b"]),
        vec![
            ("a".to_string(), Ok(1)),
            ("a".to_string(), Ok(2)),
            ("b".to_string(), Err(SessionError::Connect)),
            ("b".to_string(), Ok(3)),
        ],
    );
    assert_eq!(registry.get("a"), Some(&1));
    assert!(registry.is_blacklisted("b"));
    assert!(!registry.contains("b"));
}

#[test]
fn replugged_device_gets_a_new_session() {
    let mut registry: DeviceRegistry<u32> = DeviceRegistry::new();
    registry.finish_pass(&names(&["a"]), vec![("a".to_string(), Ok(1))]);
    registry.finish_pass(&names(&[]), Vec::new());
    assert_eq!(registry.candidates(&names(&["a"])), names(&["a"]));
    registry.finish_pass(&names(&["a"]), vec![("a".to_string(), Ok(2))]);
    assert_eq!(registry.get("a"), Some(&2));
}
