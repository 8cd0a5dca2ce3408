use account_vault::session::{json_escape, user_record, SessionStore, USER_SESSION_KEY};

#[test]
fn set_and_get() {
    let mut s = SessionStore::new();
    assert_eq!(s.get(&String::from("user")), None);

    let prev = s.set(String::from("user"), Some(String::from("alice")));
    assert_eq!(prev, None);
    assert_eq!(s.get(&String::from("user")), Some(String::from("alice")));

    let prev = s.set(String::from("user"), Some(String::from("bob")));
    assert_eq!(prev, Some(String::from("alice")));
    assert_eq!(s.get(&String::from("user")), Some(String::from("bob")));

    // A missing value removes the key and hands back what was there.
    let prev = s.set(String::from("user"), None);
    assert_eq!(prev, Some(String::from("bob")));
    assert_eq!(s.get(&String::from("user")), None);

    // Removing an absent key is harmless.
    let prev = s.set(String::from("user"), None);
    assert_eq!(prev, None);
}

#[test]
fn keys_are_independent() {
    let mut s = SessionStore::new();
    s.set(String::from("a"), Some(String::from("1")));
    s.set(String::from("b"), Some(String::from("2")));
    assert_eq!(s.get(&String::from("a")), Some(String::from("1")));
    assert_eq!(s.get(&String::from("b")), Some(String::from("2")));
    s.set(String::from("a"), None);
    assert_eq!(s.get(&String::from("a")), None);
    assert_eq!(s.get(&String::from("b")), Some(String::from("2")));
}

#[test]
fn session_key_name() {
    assert_eq!(USER_SESSION_KEY, "user");
}

#[test]
fn user_record_is_json() {
    let r = user_record("alice", "0xABC");
    assert_eq!(r, "{\"username\":\"alice\",\"address\":\"0xABC\"}");
}

#[test]
fn user_record_escapes_specials() {
    let r = user_record("al\"ice", "0x\\1");
    assert_eq!(r, "{\"username\":\"al\\\"ice\",\"address\":\"0x\\\\1\"}");
}

#[test]
fn json_escape_cases() {
    assert_eq!(json_escape("plain"), "plain");
    assert_eq!(json_escape(""), "");
    assert_eq!(json_escape("a\"b\\c"), "a\\\"b\\\\c");
    assert_eq!(json_escape("\"\""), "\\\"\\\"");
}
