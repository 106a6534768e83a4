use bevy_spicy_networking::registry::MessageRegistry;

#[test]
fn unregistered_kind_drops_messages() {
    let mut reg: MessageRegistry<u32> = MessageRegistry::new();
    assert!(!reg.contains_kind("chat"));
    assert!(!reg.deliver("chat", 1));
    assert!(reg.drain("chat").is_empty());
}

#[test]
fn registered_kind_queues_in_order() {
    let mut reg: MessageRegistry<u32> = MessageRegistry::new();
    reg.register("chat");
    reg.register("move");
    assert!(reg.contains_kind("chat"));
    assert!(reg.deliver("chat", 1));
    assert!(reg.deliver("move", 10));
    assert!(reg.deliver("chat", 2));
    assert!(reg.deliver("chat", 3));
    assert_eq!(reg.drain("chat"), vec![1, 2, 3]);
    assert_eq!(reg.drain("chat"), Vec::<u32>::new());
    assert!(reg.contains_kind("chat"));
    assert_eq!(reg.drain("move"), vec![10]);
}

#[test]
fn read_after_register_and_write() {
    let mut reg: MessageRegistry<&str> = MessageRegistry::new();
    reg.register("k");
    assert!(reg.deliver("k", "hello"));
    assert_eq!(reg.drain("k"), vec!["hello"]);
}

#[test]
fn clear_forgets_kinds_and_messages() {
    let mut reg: MessageRegistry<u32> = MessageRegistry::new();
    reg.register("a");
    reg.deliver("a", 1);
    reg.clear();
    assert!(!reg.contains_kind("a"));
    assert!(!reg.deliver("a", 2));
}
