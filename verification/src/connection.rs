//! The connection and sign-in lifecycle.
//!
//! One state machine owns the single live connection to the network
//! client: `Disconnected → Connecting → Connected`, and `Connected →
//! Disconnected`, nothing else.  The caller holds the machine behind
//! one exclusive lock, moves it to `Connecting` *before* any blocking
//! network call, and reports the call's outcome back; a failed
//! attempt always lands in `Disconnected`, never dangling in
//! `Connecting`.  Sign-in splits the same way: the first half gates
//! on the connection and produces the account secret, the network
//! authenticates, and the second half records the address and the
//! session's current-user record.

use vstd::prelude::*;

use crate::accounts::{create_errs, load_model, AccountStore};
use crate::codec::{decrypt_model, SECRET_LEN};
use crate::errors::Error;
use crate::session::{spec_user_record, user_record, SessionStore, USER_SESSION_KEY};

verus! {

/// Where the shared connection stands.  The handle names the live
/// connection that the surrounding application holds.
pub enum ConnectionState {
    Disconnected,
    Connecting,
    Connected { handle: u64 },
}

/// The owner of the connection lifecycle.
pub struct Connection {
    state: ConnectionState,
}

impl View for Connection {
    type V = ConnectionState;

    closed spec fn view(&self) -> ConnectionState {
        self.state
    }
}

/// What starting a connection attempt does: from `Disconnected` the
/// machine moves to `Connecting` and the caller is told to attempt
/// the network call (`Ok(true)`); while an attempt is in flight a
/// second caller is refused; an established connection is joined
/// without work (`Ok(false)`).
pub open spec fn begin_connect_spec(s: ConnectionState) -> (ConnectionState, Result<bool, Error>) {
    match s {
        ConnectionState::Disconnected => (ConnectionState::Connecting, Ok(true)),
        ConnectionState::Connecting => (ConnectionState::Connecting, Err(Error::AlreadyConnecting)),
        ConnectionState::Connected { handle } => (
            ConnectionState::Connected { handle },
            Ok(false),
        ),
    }
}

/// What settling an attempt does: success establishes the handle,
/// failure lands back in `Disconnected` and surfaces the network
/// error; either way nothing is left in `Connecting`.
pub open spec fn complete_connect_spec(outcome: Result<u64, String>) -> (
    ConnectionState,
    Result<(), Error>,
) {
    match outcome {
        Ok(handle) => (ConnectionState::Connected { handle }, Ok(())),
        Err(detail) => (ConnectionState::Disconnected, Err(Error::NetworkFailure(detail))),
    }
}

/// What disconnecting does: it tears down an established connection;
/// in any other state it reports `NotConnected` — also while an
/// attempt is still in flight, which it never cancels.
pub open spec fn disconnect_spec(s: ConnectionState) -> (ConnectionState, Result<(), Error>) {
    match s {
        ConnectionState::Connected { handle } => (ConnectionState::Disconnected, Ok(())),
        _ => (s, Err(Error::NotConnected)),
    }
}

impl Connection {
    /// A machine with no connection.
    pub fn new() -> (r: Connection)
        ensures
            r@ is Disconnected,
    {
        Connection { state: ConnectionState::Disconnected }
    }

    /// Claims the right to attempt a connection, atomically under the
    /// caller's lock, before any blocking network call.  `Ok(true)`
    /// obliges the caller to attempt and then settle the attempt with
    /// [`Connection::complete_connect`].
    pub fn begin_connect(&mut self) -> (r: Result<bool, Error>)
        ensures
            final(self)@ == begin_connect_spec(old(self)@).0,
            r == begin_connect_spec(old(self)@).1,
    {
        match self.state {
            ConnectionState::Disconnected => {
                self.state = ConnectionState::Connecting;
                Ok(true)
            },
            ConnectionState::Connecting => Err(Error::AlreadyConnecting),
            ConnectionState::Connected { .. } => Ok(false),
        }
    }

    /// Settles the attempt that `begin_connect` started, with the
    /// network call's outcome.
    pub fn complete_connect(&mut self, outcome: Result<u64, String>) -> (r: Result<(), Error>)
        requires
            old(self)@ is Connecting,
        ensures
            final(self)@ == complete_connect_spec(outcome).0,
            r == complete_connect_spec(outcome).1,
    {
        match outcome {
            Ok(handle) => {
                self.state = ConnectionState::Connected { handle };
                Ok(())
            },
            Err(detail) => {
                self.state = ConnectionState::Disconnected;
                Err(Error::NetworkFailure(detail))
            },
        }
    }

    /// Whether the state is exactly `Connected`.
    pub fn is_connected(&self) -> (r: bool)
        ensures
            r == (self@ is Connected),
    {
        match self.state {
            ConnectionState::Connected { .. } => true,
            _ => false,
        }
    }

    /// The live handle, when connected.
    pub fn current_handle(&self) -> (r: Option<u64>)
        ensures
            match r {
                Some(h) => self@ == (ConnectionState::Connected { handle: h }),
                None => !(self@ is Connected),
            },
    {
        match self.state {
            ConnectionState::Connected { handle } => Some(handle),
            _ => None,
        }
    }

    /// Tears down the connection, discarding the handle entirely; a
    /// later operation must connect, and usually sign in, again.
    pub fn disconnect(&mut self) -> (r: Result<(), Error>)
        ensures
            final(self)@ == disconnect_spec(old(self)@).0,
            r == disconnect_spec(old(self)@).1,
    {
        match self.state {
            ConnectionState::Connected { .. } => {
                self.state = ConnectionState::Disconnected;
                Ok(())
            },
            _ => Err(Error::NotConnected),
        }
    }
}

/// Single-flight: from `Disconnected`, the first `begin_connect`
/// claims the attempt and moves to `Connecting`; any further
/// `begin_connect` before the attempt settles is refused with
/// `AlreadyConnecting` and changes nothing; once the attempt
/// settles, the machine is `Connected` or back at `Disconnected` —
/// never still `Connecting` — and a caller that finds `Connected`
/// joins the one live handle without a second attempt.
pub proof fn lemma_single_flight(outcome: Result<u64, String>, h: u64)
    ensures
        begin_connect_spec(ConnectionState::Disconnected) == (
            ConnectionState::Connecting,
            Ok::<bool, Error>(true),
        ),
        begin_connect_spec(begin_connect_spec(ConnectionState::Disconnected).0) == (
            ConnectionState::Connecting,
            Err::<bool, Error>(Error::AlreadyConnecting),
        ),
        !(complete_connect_spec(outcome).0 is Connecting),
        begin_connect_spec(ConnectionState::Connected { handle: h }) == (
            ConnectionState::Connected { handle: h },
            Ok::<bool, Error>(false),
        ),
{
}

/// First half of sign-in: refused with `NotConnected` unless the
/// machine is `Connected`, whatever the credentials; otherwise loads
/// the account secret, or creates the account when registering,
/// exactly as the account directory does.
pub fn sign_in_begin(
    conn: &Connection,
    store: &mut AccountStore,
    login: &String,
    password: &str,
    import: Option<Vec<u8>>,
    register: bool,
) -> (r: Result<Vec<u8>, Error>)
    requires
        old(store).wf(),
        import matches Some(s) ==> s@.len() == SECRET_LEN,
        vstd::utf8::encode_utf8(password@).len() <= 0xFFFF_FFFF,
    ensures
        final(store).wf(),
        !(conn@ is Connected) ==> final(store)@ == old(store)@ && (r matches Err(e) && e
            == Error::NotConnected),
        (conn@ is Connected && !register) ==> final(store)@ == old(store)@ && (match load_model(
            old(store)@,
            login@,
            vstd::utf8::encode_utf8(password@),
        ) {
            Ok(s) => r matches Ok(v) && v@ == s,
            Err(e) => r matches Err(e2) && e2 == e,
        }),
        (conn@ is Connected && register) ==> (match r {
            Ok(secret) => {
                &&& create_errs(old(store)@, login@) is None
                &&& secret@.len() == SECRET_LEN
                &&& (import matches Some(s) ==> secret@ == s@)
                &&& final(store)@.contains_key(login@)
                &&& final(store)@ == old(store)@.insert(login@, final(store)@[login@])
                &&& final(store)@[login@].address is None
                &&& decrypt_model(
                    final(store)@[login@].envelope,
                    vstd::utf8::encode_utf8(password@),
                ) == Ok::<_, Error>(secret@)
            },
            Err(e) => {
                &&& final(store)@ == old(store)@
                &&& create_errs(old(store)@, login@) == Some(e)
            },
        }),
{
    if !conn.is_connected() {
        return Err(Error::NotConnected);
    }
    if register {
        store.create_account(login, password, import)
    } else {
        store.load_account(login, password)
    }
}

/// Second half of sign-in, once the network has authenticated the
/// secret and produced the account's public address: records the
/// address under the account, stamped `now`, and stores the
/// current-user record in the session under [`USER_SESSION_KEY`];
/// returns what the session held before.  Authentication itself is
/// the point of no return: this step fails only when the account's
/// record has meanwhile disappeared.
pub fn sign_in_complete(
    store: &mut AccountStore,
    session: &mut SessionStore,
    login: &String,
    address: &String,
    now: u64,
) -> (r: Result<Option<String>, Error>)
    requires
        old(store).wf(),
        old(session).wf(),
    ensures
        final(store).wf(),
        final(session).wf(),
        match r {
            Ok(prev) => {
                &&& old(store)@.contains_key(login@)
                &&& final(store)@ == old(store)@.insert(
                    login@,
                    (crate::accounts::RecordView {
                        envelope: old(store)@[login@].envelope,
                        address: Some(address@),
                        address_time: now,
                    }),
                )
                &&& final(session)@ == old(session)@.insert(
                    USER_SESSION_KEY@,
                    spec_user_record(login@, address@),
                )
                &&& (match prev {
                    Some(p) => old(session)@.contains_key(USER_SESSION_KEY@) && p@ == old(
                        session,
                    )@[USER_SESSION_KEY@],
                    None => !old(session)@.contains_key(USER_SESSION_KEY@),
                })
            },
            Err(e) => {
                &&& e == Error::NoSuchAccount
                &&& !old(store)@.contains_key(login@)
                &&& final(store)@ == old(store)@
                &&& final(session)@ == old(session)@
            },
        },
{
    match store.record_address(login, address, now) {
        Ok(_) => {},
        Err(e) => {
            return Err(e);
        },
    }
    let record = user_record(login.as_str(), address.as_str());
    let prev = session.set(String::from_str(USER_SESSION_KEY), Some(record));
    Ok(prev)
}

} // verus!
