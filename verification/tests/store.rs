use kvserver::thread_safe_map::{Message, ThreadSafeMap};

fn b(s: &str) -> Vec<u8> {
    s.as_bytes().to_vec()
}

#[test]
fn set_then_get_returns_the_value() {
    let mut map = ThreadSafeMap::new();
    map.set(b("k"), b("v"));
    assert_eq!(map.get(b("k")), Some(b("v")));
}

#[test]
fn get_of_a_key_never_set_is_absent() {
    let map = ThreadSafeMap::new();
    assert_eq!(map.get(b("nope")), None);
}

#[test]
fn absent_is_distinct_from_empty_value() {
    let mut map = ThreadSafeMap::new();
    map.set(b("k"), b(""));
    assert_eq!(map.get(b("k")), Some(b("")));
    assert_eq!(map.get(b("other")), None);
}

#[test]
fn last_write_wins() {
    let mut map = ThreadSafeMap::new();
    map.set(b("k"), b("v1"));
    map.set(b("k"), b("v2"));
    assert_eq!(map.get(b("k")), Some(b("v2")));
}

#[test]
fn distinct_keys_do_not_clobber() {
    let mut map = ThreadSafeMap::new();
    map.set(b("a"), b("1"));
    map.set(b("b"), b("2"));
    assert_eq!(map.get(b("a")), Some(b("1")));
    assert_eq!(map.get(b("b")), Some(b("2")));
}

#[test]
fn remove_unbinds_and_is_idempotent() {
    let mut map = ThreadSafeMap::new();
    map.set(b("k"), b("v"));
    map.remove(b("k"));
    assert_eq!(map.get(b("k")), None);
    map.remove(b("k"));
    assert_eq!(map.get(b("k")), None);
}

#[test]
fn handle_messages_applies_in_arrival_order() {
    let mut map = ThreadSafeMap::new();
    let messages = vec![
        Message::Put(b("a"), b("1")),
        Message::Get(b("a")),
        Message::Put(b("a"), b("2")),
        Message::Get(b("a")),
        Message::Remove(b("a")),
        Message::Get(b("a")),
        Message::Get(b("b")),
    ];
    let replies = map.handle_messages(messages);
    assert_eq!(replies, vec![Some(b("1")), Some(b("2")), None, None]);
    assert_eq!(map.get(b("a")), None);
}

#[test]
fn handle_messages_from_two_enqueuers() {
    // Requests from different connections interleave in arrival order; the
    // writes to distinct keys both survive.
    let mut map = ThreadSafeMap::new();
    let messages = vec![
        Message::Put(b("x"), b("1")),
        Message::Put(b("y"), b("2")),
        Message::Get(b("x")),
        Message::Get(b("y")),
    ];
    let replies = map.handle_messages(messages);
    assert_eq!(replies, vec![Some(b("1")), Some(b("2"))]);
}
