use account_vault::accounts::{address_path, envelope_path, login_ok, user_root, AccountStore};
use account_vault::errors::Error;

fn import_secret(fill: u8) -> Vec<u8> {
    let mut s: Vec<u8> = Vec::new();
    let mut i = 0;
    while i < 32 {
        s.push(fill);
        i += 1;
    }
    s
}

#[test]
fn account_lifecycle() {
    let mut store = AccountStore::new();
    let first = store.create_account(&String::from("alice"), "pw", None);
    assert!(first.is_ok());

    let second = store.create_account(&String::from("alice"), "pw2", None);
    assert!(matches!(second, Err(Error::AlreadyExists)));

    assert!(store.delete_account(&String::from("alice")).is_ok());
    let gone = store.load_account(&String::from("alice"), "pw");
    assert!(matches!(gone, Err(Error::NoSuchAccount)));
}

#[test]
fn create_then_load_round_trip() {
    let mut store = AccountStore::new();
    let secret = import_secret(0x5a);
    let created = store
        .create_account(&String::from("bob"), "hunter2", Some(secret.clone()))
        .unwrap();
    assert_eq!(created, secret);

    let loaded = store.load_account(&String::from("bob"), "hunter2").unwrap();
    assert_eq!(loaded, secret);

    let wrong = store.load_account(&String::from("bob"), "hunter3");
    assert!(matches!(wrong, Err(Error::BadPassword)));
}

#[test]
fn delete_missing_account_is_no_op() {
    let mut store = AccountStore::new();
    assert!(store.delete_account(&String::from("nobody")).is_ok());
}

#[test]
fn invalid_logins_are_rejected() {
    let mut store = AccountStore::new();
    for bad in ["", ".", "..", "a/b", "a\\b", "../escape"] {
        let r = store.create_account(&String::from(bad), "pw", None);
        assert!(matches!(r, Err(Error::InvalidLogin)), "login {:?} must be rejected", bad);
        assert!(!login_ok(bad));
    }
    assert!(login_ok("alice"));
    assert!(login_ok("a.b"));
    assert!(login_ok("..."));
}

#[test]
fn record_address_needs_account() {
    let mut store = AccountStore::new();
    let r = store.record_address(&String::from("ghost"), &String::from("0x1"), 5);
    assert!(matches!(r, Err(Error::NoSuchAccount)));
}

#[test]
fn listing_orders_by_address_time() {
    let mut store = AccountStore::new();
    store.create_account(&String::from("alice"), "pw", None).unwrap();
    store.create_account(&String::from("bob"), "pw", None).unwrap();
    store.create_account(&String::from("carol"), "pw", None).unwrap();
    store.create_account(&String::from("dave"), "pw", None).unwrap();

    store
        .record_address(&String::from("alice"), &String::from("0xAAA"), 20)
        .unwrap();
    store
        .record_address(&String::from("bob"), &String::from("0xBBB"), 10)
        .unwrap();
    store
        .record_address(&String::from("carol"), &String::from("0xCCC"), 30)
        .unwrap();
    // dave never signed in: no address file, sentinel value, sorts last.

    let listing = store.list_accounts(100);
    let expected = vec![
        (String::from("bob"), String::from("0xBBB")),
        (String::from("alice"), String::from("0xAAA")),
        (String::from("carol"), String::from("0xCCC")),
        (String::from("dave"), String::from("<error>")),
    ];
    assert_eq!(listing, expected);
}

#[test]
fn account_paths() {
    assert_eq!(user_root("/data", "alice"), "/data/accounts/alice");
    assert_eq!(envelope_path("/data", "alice"), "/data/accounts/alice/sk.key");
    assert_eq!(address_path("/data", "alice"), "/data/accounts/alice/evm_address");
}
