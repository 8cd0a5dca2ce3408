use account_vault::accounts::AccountStore;
use account_vault::connection::{sign_in_begin, sign_in_complete, Connection};
use account_vault::errors::Error;
use account_vault::session::SessionStore;

#[test]
fn single_flight_connect() {
    let mut conn = Connection::new();
    assert!(!conn.is_connected());

    // The first caller claims the attempt.
    assert_eq!(conn.begin_connect().unwrap(), true);

    // A second caller while the attempt is in flight is refused.
    let second = conn.begin_connect();
    assert!(matches!(second, Err(Error::AlreadyConnecting)));
    assert!(!conn.is_connected());

    // The attempt settles successfully: exactly one live handle.
    conn.complete_connect(Ok(7)).unwrap();
    assert!(conn.is_connected());
    assert_eq!(conn.current_handle(), Some(7));

    // A later caller joins the settled connection without work.
    assert_eq!(conn.begin_connect().unwrap(), false);
    assert_eq!(conn.current_handle(), Some(7));
}

#[test]
fn failed_attempt_lands_disconnected() {
    let mut conn = Connection::new();
    assert_eq!(conn.begin_connect().unwrap(), true);
    let r = conn.complete_connect(Err(String::from("no peers")));
    match r {
        Err(Error::NetworkFailure(detail)) => assert_eq!(detail, "no peers"),
        other => panic!("expected a network failure, got {:?}", other),
    }
    assert!(!conn.is_connected());
    // The machine is usable again at once.
    assert_eq!(conn.begin_connect().unwrap(), true);
}

#[test]
fn disconnect_needs_connection() {
    let mut conn = Connection::new();
    assert!(matches!(conn.disconnect(), Err(Error::NotConnected)));

    conn.begin_connect().unwrap();
    // Disconnect does not cancel an in-flight attempt.
    assert!(matches!(conn.disconnect(), Err(Error::NotConnected)));

    conn.complete_connect(Ok(1)).unwrap();
    assert!(conn.disconnect().is_ok());
    assert!(!conn.is_connected());
    assert_eq!(conn.current_handle(), None);
}

#[test]
fn sign_in_before_connect_is_refused() {
    let conn = Connection::new();
    let mut store = AccountStore::new();

    // Whatever the credentials, and whether registering or not.
    let r = sign_in_begin(&conn, &mut store, &String::from("alice"), "pw", None, true);
    assert!(matches!(r, Err(Error::NotConnected)));
    let r = sign_in_begin(&conn, &mut store, &String::from("alice"), "pw", None, false);
    assert!(matches!(r, Err(Error::NotConnected)));

    // Nothing was created along the way.
    let mut probe = store;
    let r = probe.load_account(&String::from("alice"), "pw");
    assert!(matches!(r, Err(Error::NoSuchAccount)));
}

#[test]
fn sign_in_flow_records_address_and_session() {
    let mut conn = Connection::new();
    let mut store = AccountStore::new();
    let mut session = SessionStore::new();

    conn.begin_connect().unwrap();
    conn.complete_connect(Ok(42)).unwrap();

    let secret = sign_in_begin(&conn, &mut store, &String::from("alice"), "pw", None, true)
        .unwrap();
    assert_eq!(secret.len(), 32);

    // The application now authenticates with the secret and learns
    // the public address; the second half records both.
    let prev = sign_in_complete(&mut store, &mut session, &String::from("alice"),
        &String::from("0xFEED"), 17)
        .unwrap();
    assert_eq!(prev, None);

    let record = session.get(&String::from("user")).unwrap();
    assert_eq!(record, "{\"username\":\"alice\",\"address\":\"0xFEED\"}");

    let listing = store.list_accounts(99);
    assert_eq!(listing, vec![(String::from("alice"), String::from("0xFEED"))]);

    // Signing in again replaces the session record and returns the old one.
    let prev = sign_in_complete(&mut store, &mut session, &String::from("alice"),
        &String::from("0xF00D"), 18)
        .unwrap();
    assert_eq!(prev, Some(String::from("{\"username\":\"alice\",\"address\":\"0xFEED\"}")));
}

#[test]
fn sign_in_complete_needs_account() {
    let mut store = AccountStore::new();
    let mut session = SessionStore::new();
    let r = sign_in_complete(&mut store, &mut session, &String::from("ghost"),
        &String::from("0x0"), 1);
    assert!(matches!(r, Err(Error::NoSuchAccount)));
    assert_eq!(session.get(&String::from("user")), None);
}
