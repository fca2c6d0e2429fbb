use signaling::clients::ClientRegistry;
use signaling::rooms::RoomRegistry;

fn s(x: &str) -> String {
    x.to_string()
}

#[test]
fn register_lookup_unregister() {
    let mut reg: ClientRegistry<u32> = ClientRegistry::new();
    assert!(!reg.is_registered("a"));
    assert_eq!(reg.lookup("a"), None);
    reg.register(s("a"), 1);
    assert!(reg.is_registered("a"));
    assert_eq!(reg.lookup("a"), Some(&1));
    // register is idempotent up to overwriting the handle
    reg.register(s("a"), 2);
    assert_eq!(reg.lookup("a"), Some(&2));
    reg.unregister("a");
    assert_eq!(reg.lookup("a"), None);
    // unregister of an absent id is a no-op
    reg.unregister("a");
    assert_eq!(reg.lookup("a"), None);
}

#[test]
fn unrelated_entries_survive() {
    let mut reg: ClientRegistry<u32> = ClientRegistry::new();
    reg.register(s("a"), 1);
    reg.register(s("b"), 2);
    reg.unregister("a");
    assert_eq!(reg.lookup("b"), Some(&2));
}

#[test]
fn join_members_leave() {
    let mut rooms = RoomRegistry::new();
    assert!(!rooms.has_room(&s("r1")));
    assert_eq!(rooms.members(&s("r1")), None);
    rooms.join(&s("r1"), &s("a"));
    rooms.join(&s("r1"), &s("b"));
    let ms = rooms.members(&s("r1")).unwrap();
    assert_eq!(ms.len(), 2);
    assert!(ms.contains(&s("a")));
    assert!(ms.contains(&s("b")));
    rooms.leave(&s("r1"), &s("a"));
    let ms = rooms.members(&s("r1")).unwrap();
    assert_eq!(ms, vec![s("b")]);
    rooms.leave(&s("r1"), &s("b"));
    // the last member left: the room is gone
    assert_eq!(rooms.members(&s("r1")), None);
    assert!(!rooms.has_room(&s("r1")));
}

#[test]
fn join_twice_is_join_once() {
    let mut rooms = RoomRegistry::new();
    rooms.join(&s("r1"), &s("a"));
    rooms.join(&s("r1"), &s("a"));
    assert_eq!(rooms.members(&s("r1")).unwrap(), vec![s("a")]);
}

#[test]
fn leave_absent_is_noop() {
    let mut rooms = RoomRegistry::new();
    rooms.join(&s("r1"), &s("a"));
    rooms.leave(&s("r2"), &s("a"));
    rooms.leave(&s("r1"), &s("b"));
    assert_eq!(rooms.members(&s("r1")).unwrap(), vec![s("a")]);
    assert!(!rooms.has_room(&s("r2")));
}

#[test]
fn rooms_are_independent() {
    let mut rooms = RoomRegistry::new();
    rooms.join(&s("r1"), &s("a"));
    rooms.join(&s("r2"), &s("b"));
    rooms.leave(&s("r1"), &s("a"));
    assert!(!rooms.has_room(&s("r1")));
    assert_eq!(rooms.members(&s("r2")).unwrap(), vec![s("b")]);
}
