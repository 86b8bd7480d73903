use alagent::memory::{Memory, MemoryMessage};

fn pairs(m: &Memory) -> Vec<(String, String)> {
    m.messages().iter().map(|x| (x.role.clone(), x.content.clone())).collect()
}

#[test]
fn new_memory_is_empty_with_twenty_turns() {
    let m = Memory::new();
    assert_eq!(m.len(), 0);
    assert!(m.is_empty());
    assert_eq!(m.max_turns(), 20);
    let d = Memory::default();
    assert!(d.is_empty());
    assert_eq!(d.max_turns(), 20);
}

#[test]
fn add_user_and_assistant_roles() {
    let mut m = Memory::new();
    m.add_user("hi");
    m.add_assistant("hello");
    m.add("system", "note");
    assert_eq!(
        pairs(&m),
        vec![
            ("user".to_string(), "hi".to_string()),
            ("assistant".to_string(), "hello".to_string()),
            ("system".to_string(), "note".to_string()),
        ]
    );
    assert!(!m.is_empty());
}

#[test]
fn add_drops_oldest_beyond_two_per_turn() {
    let mut m = Memory::new().with_max_turns(1);
    m.add_user("a");
    m.add_assistant("b");
    m.add_user("c");
    assert_eq!(m.len(), 2);
    assert_eq!(
        pairs(&m),
        vec![("assistant".to_string(), "b".to_string()), ("user".to_string(), "c".to_string())]
    );
    m.add_assistant("d");
    assert_eq!(pairs(&m), vec![("user".to_string(), "c".to_string()), ("assistant".to_string(), "d".to_string())]);
}

#[test]
fn zero_turns_keeps_nothing() {
    let mut m = Memory::new().with_max_turns(0);
    m.add_user("a");
    assert!(m.is_empty());
}

#[test]
fn with_max_turns_does_not_trim_until_add() {
    let mut m = Memory::new();
    for i in 0..6 {
        m.add_user(&i.to_string());
    }
    let mut m = m.with_max_turns(1);
    assert_eq!(m.len(), 6);
    m.add_user("x");
    assert_eq!(pairs(&m), vec![("user".to_string(), "5".to_string()), ("user".to_string(), "x".to_string())]);
}

#[test]
fn clear_keeps_turn_limit() {
    let mut m = Memory::new().with_max_turns(3);
    m.add_user("a");
    m.clear();
    assert!(m.is_empty());
    assert_eq!(m.max_turns(), 3);
}

#[test]
fn from_parts_keeps_messages_as_given() {
    let msgs = vec![
        MemoryMessage { role: "user".into(), content: "1".into() },
        MemoryMessage { role: "user".into(), content: "2".into() },
        MemoryMessage { role: "user".into(), content: "3".into() },
    ];
    let m = Memory::from_parts(msgs, 1);
    assert_eq!(m.len(), 3);
    assert_eq!(m.max_turns(), 1);
}

#[test]
fn huge_turn_limit_saturates() {
    let mut m = Memory::new().with_max_turns(usize::MAX);
    m.add_user("a");
    m.add_assistant("b");
    assert_eq!(m.len(), 2);
}

#[test]
fn memory_never_holds_more_than_two_messages_per_turn() {
    let mut m = Memory::new().with_max_turns(3);
    for i in 0..20 {
        m.add_user(&i.to_string());
        m.add_assistant("ok");
        assert!(m.len() <= 6);
        assert_eq!(m.len(), m.messages().len());
    }
    m.clear();
    assert_eq!(m.len(), 0);
}
