//! The account directory: one envelope per login name.
//!
//! A login maps to a directory holding the envelope file and a
//! cached public-address file; the envelope's existence is the sole
//! source of truth for "this account exists".  This module keeps the
//! directory's contents as data — creating, reading, and deleting
//! records and listing them by the time their address was recorded —
//! while the caller moves the same bytes to and from disk.

use vstd::prelude::*;

use crate::codec::{decrypt, decrypt_model, encrypt, SECRET_LEN};
use crate::crypto::generate_secret_bytes;
use crate::errors::Error;
use crate::kvmap::{
    keys_distinct, lemma_map_of_absent, lemma_map_of_get, lemma_map_of_remove, map_of,
};

verus! {

/// A character that may appear in a login: anything but a path
/// separator or NUL.
pub open spec fn valid_login_char(c: char) -> bool {
    c != '/' && c != '\\' && c != '\u{0}'
}

/// A login that may name an account directory: non-empty, not a dot
/// name, and free of separators, so no crafted login can escape the
/// accounts directory.
pub open spec fn valid_login(s: Seq<char>) -> bool {
    &&& s.len() > 0
    &&& s != seq!['.']
    &&& s != seq!['.', '.']
    &&& forall|i: int| 0 <= i < s.len() ==> valid_login_char(#[trigger] s[i])
}

/// Decides [`valid_login`] for a login string.
pub fn login_ok(login: &str) -> (r: bool)
    ensures
        r == valid_login(login@),
{
    let n = login.unicode_len();
    if n == 0 {
        return false;
    }
    let mut i: usize = 0;
    while i < n
        invariant
            i <= n,
            n == login@.len(),
            forall|j: int| 0 <= j < i ==> valid_login_char(#[trigger] login@[j]),
        decreases n - i,
    {
        let c = login.get_char(i);
        if c == '/' || c == '\\' || c == '\u{0}' {
            return false;
        }
        i = i + 1;
    }
    let dot1 = if n == 1 {
        login.get_char(0) == '.'
    } else {
        false
    };
    if dot1 {
        proof {
            assert(login@ =~= seq!['.']);
        }
        return false;
    }
    let dot2 = if n == 2 {
        login.get_char(0) == '.' && login.get_char(1) == '.'
    } else {
        false
    };
    if dot2 {
        proof {
            assert(login@ =~= seq!['.', '.']);
        }
        return false;
    }
    proof {
        if login@ == seq!['.'] {
            assert(login@[0] == '.');
            assert(false);
        }
        if login@ == seq!['.', '.'] {
            assert(login@[0] == '.' && login@[1] == '.');
            assert(false);
        }
    }
    true
}

/// The directory under which every account lives:
/// `<app_root>/accounts`.
pub fn accounts_dir(app_root: &str) -> (r: String)
    ensures
        r@ == app_root@ + "/accounts"@,
{
    let mut p = String::from_str(app_root);
    p.append("/accounts");
    p
}

/// The directory of one account: `<app_root>/accounts/<login>`.
pub fn user_root(app_root: &str, login: &str) -> (r: String)
    ensures
        r@ == app_root@ + "/accounts/"@ + login@,
{
    let mut p = String::from_str(app_root);
    p.append("/accounts/");
    p.append(login);
    p
}

/// The envelope file of one account: `<user_root>/sk.key`.
pub fn envelope_path(app_root: &str, login: &str) -> (r: String)
    ensures
        r@ == app_root@ + "/accounts/"@ + login@ + "/sk.key"@,
{
    let mut p = user_root(app_root, login);
    p.append("/sk.key");
    p
}

/// The cached-address file of one account: `<user_root>/evm_address`.
pub fn address_path(app_root: &str, login: &str) -> (r: String)
    ensures
        r@ == app_root@ + "/accounts/"@ + login@ + "/evm_address"@,
{
    let mut p = user_root(app_root, login);
    p.append("/evm_address");
    p
}

/// What is stored for one account.
pub struct AccountRecord {
    /// The serialized envelope, the account's source of truth.
    pub envelope: Vec<u8>,
    /// The cached public address, written after a successful sign-in.
    pub address: Option<String>,
    /// When the address was last recorded; meaningful only when an
    /// address is present.
    pub address_time: u64,
}

/// The mathematical value of an [`AccountRecord`].
pub struct RecordView {
    pub envelope: Seq<u8>,
    pub address: Option<Seq<char>>,
    pub address_time: u64,
}

impl View for AccountRecord {
    type V = RecordView;

    open spec fn view(&self) -> RecordView {
        RecordView {
            envelope: self.envelope@,
            address: match self.address {
                Some(a) => Some(a@),
                None => None,
            },
            address_time: self.address_time,
        }
    }
}

/// The account directory, seen as a map from login to record.
pub struct AccountStore {
    accounts: Vec<(String, AccountRecord)>,
}

impl View for AccountStore {
    type V = Map<Seq<char>, RecordView>;

    closed spec fn view(&self) -> Map<Seq<char>, RecordView> {
        map_of(self.accounts@)
    }
}

/// Which error a create must report, if any: an invalid login is
/// rejected before any directory name is built, and an existing
/// envelope means the account already exists, whatever the password.
pub open spec fn create_errs(m: Map<Seq<char>, RecordView>, login: Seq<char>) -> Option<Error> {
    if !valid_login(login) {
        Some(Error::InvalidLogin)
    } else if m.contains_key(login) {
        Some(Error::AlreadyExists)
    } else {
        None
    }
}

/// Exactly what reading an account yields: `NoSuchAccount` when no
/// envelope exists, otherwise the decryption's own outcome.
pub open spec fn load_model(
    m: Map<Seq<char>, RecordView>,
    login: Seq<char>,
    password: Seq<u8>,
) -> Result<Seq<u8>, Error> {
    if m.contains_key(login) {
        decrypt_model(m[login].envelope, password)
    } else {
        Err(Error::NoSuchAccount)
    }
}

impl AccountStore {
    /// Every login is valid and no two entries share one.
    pub closed spec fn wf(&self) -> bool {
        &&& keys_distinct(self.accounts@)
        &&& forall|i: int|
            0 <= i < self.accounts@.len() ==> valid_login(
                (#[trigger] self.accounts@[i]).0@,
            )
    }

    /// An empty directory.
    pub fn new() -> (r: AccountStore)
        ensures
            r.wf(),
            r@ == Map::<Seq<char>, RecordView>::empty(),
    {
        AccountStore { accounts: Vec::new() }
    }

    fn find_index(&self, login: &String) -> (r: Option<usize>)
        ensures
            match r {
                Some(i) => i < self.accounts@.len() && self.accounts@[i as int].0@ == login@,
                None => forall|j: int|
                    0 <= j < self.accounts@.len() ==> (#[trigger] self.accounts@[j]).0@
                        != login@,
            },
    {
        let mut i: usize = 0;
        while i < self.accounts.len()
            invariant
                i <= self.accounts@.len(),
                forall|j: int| 0 <= j < i ==> (#[trigger] self.accounts@[j]).0@ != login@,
            decreases self.accounts@.len() - i,
        {
            if self.accounts[i].0 == *login {
                return Some(i);
            }
            i = i + 1;
        }
        None
    }

    /// Whether an envelope exists for `login`.
    pub fn account_exists(&self, login: &String) -> (r: bool)
        requires
            self.wf(),
        ensures
            r == self@.contains_key(login@),
    {
        match self.find_index(login) {
            Some(i) => {
                proof {
                    lemma_map_of_get(self.accounts@, i as int);
                }
                true
            },
            None => {
                proof {
                    lemma_map_of_absent(self.accounts@, login@);
                }
                false
            },
        }
    }

    /// Creates an account: fails on an invalid login or an existing
    /// envelope; otherwise encrypts the imported or freshly drawn
    /// secret, stores the new envelope with no cached address, and
    /// returns the plaintext secret for immediate sign-in use.
    pub fn create_account(&mut self, login: &String, password: &str, import: Option<Vec<u8>>) -> (r:
        Result<Vec<u8>, Error>)
        requires
            old(self).wf(),
            import matches Some(s) ==> s@.len() == SECRET_LEN,
            vstd::utf8::encode_utf8(password@).len() <= 0xFFFF_FFFF,
        ensures
            final(self).wf(),
            match r {
                Ok(secret) => {
                    &&& create_errs(old(self)@, login@) is None
                    &&& secret@.len() == SECRET_LEN
                    &&& (import matches Some(s) ==> secret@ == s@)
                    &&& final(self)@.contains_key(login@)
                    &&& final(self)@ == old(self)@.insert(login@, final(self)@[login@])
                    &&& final(self)@[login@].address is None
                    &&& decrypt_model(
                        final(self)@[login@].envelope,
                        vstd::utf8::encode_utf8(password@),
                    ) == Ok::<_, Error>(secret@)
                },
                Err(e) => {
                    &&& final(self)@ == old(self)@
                    &&& create_errs(old(self)@, login@) == Some(e)
                },
            },
    {
        if !login_ok(login.as_str()) {
            return Err(Error::InvalidLogin);
        }
        match self.find_index(login) {
            Some(i) => {
                proof {
                    lemma_map_of_get(self.accounts@, i as int);
                }
                return Err(Error::AlreadyExists);
            },
            None => {
                proof {
                    lemma_map_of_absent(self.accounts@, login@);
                }
            },
        }
        let secret = match import {
            Some(s) => s,
            None => generate_secret_bytes(),
        };
        let envelope = match encrypt(secret.as_slice(), password) {
            Ok(b) => b,
            Err(e) => {
                return Err(e);
            },
        };
        let ghost before = self.accounts@;
        let record = AccountRecord { envelope, address: None, address_time: 0 };
        self.accounts.push((login.clone(), record));
        proof {
            assert(self.accounts@.drop_last() =~= before);
            lemma_map_of_get(self.accounts@, self.accounts@.len() - 1);
            assert(forall|i: int|
                0 <= i < before.len() ==> (#[trigger] self.accounts@[i]) == before[i]);
        }
        Ok(secret)
    }

    /// The stored envelope bytes of `login`, for the caller to write
    /// beside the account's other files.
    pub fn envelope_bytes(&self, login: &String) -> (r: Option<&Vec<u8>>)
        requires
            self.wf(),
        ensures
            match r {
                Some(v) => self@.contains_key(login@) && v@ == self@[login@].envelope,
                None => !self@.contains_key(login@),
            },
    {
        match self.find_index(login) {
            Some(i) => {
                proof {
                    lemma_map_of_get(self.accounts@, i as int);
                }
                Some(&self.accounts[i].1.envelope)
            },
            None => {
                proof {
                    lemma_map_of_absent(self.accounts@, login@);
                }
                None
            },
        }
    }

    /// Rebuilds one account from its on-disk files, as read by the
    /// caller: the envelope bytes and, when one was written, the
    /// cached address with its recorded time.  Refuses an invalid
    /// login or one already present.
    pub fn restore_account(
        &mut self,
        login: &String,
        envelope: Vec<u8>,
        address: Option<String>,
        address_time: u64,
    ) -> (r: Result<(), Error>)
        requires
            old(self).wf(),
        ensures
            final(self).wf(),
            match r {
                Ok(_) => {
                    &&& create_errs(old(self)@, login@) is None
                    &&& final(self)@ == old(self)@.insert(
                        login@,
                        (RecordView {
                            envelope: envelope@,
                            address: match address {
                                Some(a) => Some(a@),
                                None => None,
                            },
                            address_time,
                        }),
                    )
                },
                Err(e) => {
                    &&& final(self)@ == old(self)@
                    &&& create_errs(old(self)@, login@) == Some(e)
                },
            },
    {
        if !login_ok(login.as_str()) {
            return Err(Error::InvalidLogin);
        }
        match self.find_index(login) {
            Some(i) => {
                proof {
                    lemma_map_of_get(self.accounts@, i as int);
                }
                return Err(Error::AlreadyExists);
            },
            None => {
                proof {
                    lemma_map_of_absent(self.accounts@, login@);
                }
            },
        }
        let ghost before = self.accounts@;
        let record = AccountRecord { envelope, address, address_time };
        self.accounts.push((login.clone(), record));
        proof {
            assert(self.accounts@.drop_last() =~= before);
            lemma_map_of_get(self.accounts@, self.accounts@.len() - 1);
            assert(forall|i: int|
                0 <= i < before.len() ==> (#[trigger] self.accounts@[i]) == before[i]);
        }
        Ok(())
    }

    /// Reads and decrypts the account's secret: `NoSuchAccount` when
    /// no envelope exists, else the codec's own bad-password or
    /// corrupt-data answer, unchanged.
    pub fn load_account(&self, login: &String, password: &str) -> (r: Result<Vec<u8>, Error>)
        requires
            self.wf(),
            vstd::utf8::encode_utf8(password@).len() <= 0xFFFF_FFFF,
        ensures
            match load_model(self@, login@, vstd::utf8::encode_utf8(password@)) {
                Ok(s) => r matches Ok(v) && v@ == s,
                Err(e) => r matches Err(e2) && e2 == e,
            },
    {
        match self.find_index(login) {
            None => {
                proof {
                    lemma_map_of_absent(self.accounts@, login@);
                }
                Err(Error::NoSuchAccount)
            },
            Some(i) => {
                proof {
                    lemma_map_of_get(self.accounts@, i as int);
                }
                decrypt(self.accounts[i].1.envelope.as_slice(), password)
            },
        }
    }

    /// Overwrites the cached address of an existing account,
    /// stamping it with `now`; fails with `NoSuchAccount` otherwise.
    pub fn record_address(&mut self, login: &String, address: &String, now: u64) -> (r: Result<
        (),
        Error,
    >)
        requires
            old(self).wf(),
        ensures
            final(self).wf(),
            match r {
                Ok(_) => {
                    &&& old(self)@.contains_key(login@)
                    &&& final(self)@ == old(self)@.insert(
                        login@,
                        (RecordView {
                            envelope: old(self)@[login@].envelope,
                            address: Some(address@),
                            address_time: now,
                        }),
                    )
                },
                Err(e) => {
                    &&& e == Error::NoSuchAccount
                    &&& !old(self)@.contains_key(login@)
                    &&& final(self)@ == old(self)@
                },
            },
    {
        let ghost entries0 = self.accounts@;
        match self.find_index(login) {
            None => {
                proof {
                    lemma_map_of_absent(self.accounts@, login@);
                }
                Err(Error::NoSuchAccount)
            },
            Some(i) => {
                proof {
                    lemma_map_of_get(entries0, i as int);
                    lemma_map_of_remove(entries0, i as int);
                }
                let (key, mut record) = self.accounts.remove(i);
                record.address = Some(address.clone());
                record.address_time = now;
                let ghost removed = self.accounts@;
                self.accounts.push((key, record));
                proof {
                    assert(keys_distinct(removed));
                    assert(forall|j: int|
                        0 <= j < removed.len() ==> (#[trigger] removed[j]).0@ != login@);
                    lemma_map_of_absent(removed, login@);
                    assert(self.accounts@.drop_last() =~= removed);
                    assert(forall|j: int|
                        0 <= j < removed.len() ==> (#[trigger] self.accounts@[j]) == removed[j]);
                    assert(map_of(self.accounts@) =~= map_of(entries0).insert(
                        login@,
                        self.accounts@.last().1@,
                    ));
                }
                Ok(())
            },
        }
    }

    /// Removes the account's record; a no-op, not an error, when
    /// none exists.
    pub fn delete_account(&mut self, login: &String) -> (r: Result<(), Error>)
        requires
            old(self).wf(),
        ensures
            final(self).wf(),
            r is Ok,
            final(self)@ == old(self)@.remove(login@),
    {
        match self.find_index(login) {
            None => {
                proof {
                    lemma_map_of_absent(self.accounts@, login@);
                    assert(self@ =~= self@.remove(login@));
                }
                Ok(())
            },
            Some(i) => {
                proof {
                    lemma_map_of_remove(self.accounts@, i as int);
                }
                self.accounts.remove(i);
                Ok(())
            },
        }
    }
}

/// The address shown for a record in a listing: the cached address,
/// or the sentinel for an account whose address is unreadable.
pub open spec fn listed_address(rec: RecordView) -> Seq<char> {
    match rec.address {
        Some(a) => a,
        None => "<error>"@,
    }
}

/// The time a record sorts by: when its address was recorded, or
/// `now` for one with no readable address, which therefore sorts
/// last.
pub open spec fn listed_time(rec: RecordView, now: u64) -> u64 {
    match rec.address {
        Some(_) => rec.address_time,
        None => now,
    }
}

/// One row gathered for the listing stands for one stored account.
spec fn row_matches(row: (u64, String, String), entry: (String, AccountRecord), now: u64) -> bool {
    &&& row.0 == listed_time(entry.1@, now)
    &&& row.1@ == entry.0@
    &&& row.2@ == listed_address(entry.1@)
}

fn sort_rows(input: Vec<(u64, String, String)>) -> (r: Vec<(u64, String, String)>)
    ensures
        r@.len() == input@.len(),
        forall|a: int, b: int| 0 <= a < b < r@.len() ==> (#[trigger] r@[a]).0 <= (#[trigger] r@[b]).0,
        r@.to_multiset() == input@.to_multiset(),
{
    let mut out: Vec<(u64, String, String)> = Vec::new();
    let mut idx: usize = 0;
    proof {
        assert(input@.subrange(0, 0) =~= out@);
    }
    while idx < input.len()
        invariant
            idx <= input@.len(),
            out@.len() == idx,
            forall|a: int, b: int|
                0 <= a < b < out@.len() ==> (#[trigger] out@[a]).0 <= (#[trigger] out@[b]).0,
            out@.to_multiset() == input@.subrange(0, idx as int).to_multiset(),
        decreases input@.len() - idx,
    {
        let row_ref = &input[idx];
        let row = (row_ref.0, row_ref.1.clone(), row_ref.2.clone());
        proof {
            assert(row == input@[idx as int]);
        }
        let mut pos: usize = 0;
        while pos < out.len() && out[pos].0 <= row.0
            invariant
                pos <= out@.len(),
                forall|a: int| 0 <= a < pos ==> (#[trigger] out@[a]).0 <= row.0,
            decreases out@.len() - pos,
        {
            pos = pos + 1;
        }
        let ghost before = out@;
        let ghost sorted_facts = forall|a: int, b: int|
            0 <= a < b < before.len() ==> (#[trigger] before[a]).0 <= (#[trigger] before[b]).0;
        out.insert(pos, row);
        proof {
            before.insert_ensures(pos as int, row);
            assert forall|a: int, b: int|
                0 <= a < b < out@.len() implies (#[trigger] out@[a]).0 <= (#[trigger] out@[b]).0 by {
                if b < pos {
                } else if a < pos && b == pos {
                } else if a == pos && b > pos {
                    assert(out@[b] == before[b - 1]);
                    assert(before[pos as int].0 > row.0 || (pos as int) == before.len());
                } else if a > pos {
                    assert(out@[a] == before[a - 1]);
                    assert(out@[b] == before[b - 1]);
                } else {
                    assert(out@[a] == before[a]);
                    assert(out@[b] == before[b - 1]);
                    if (pos as int) < before.len() {
                        assert(before[pos as int].0 > row.0);
                    }
                }
            }
            broadcast use vstd::seq_lib::lemma_multiset_commutative;
            broadcast use vstd::seq_lib::group_to_multiset_ensures;

            let s0 = before.subrange(0, pos as int);
            let s1 = before.subrange(pos as int, before.len() as int);
            assert(out@ == s0.push(row) + s1);
            assert(before =~= s0 + s1);
            assert(out@.to_multiset() =~= before.to_multiset().insert(row)) by {
                broadcast use vstd::multiset::group_multiset_axioms;

                assert(out@.to_multiset() == s0.push(row).to_multiset().add(s1.to_multiset()));
                assert(s0.push(row).to_multiset() == s0.to_multiset().insert(row));
                assert(before.to_multiset() == s0.to_multiset().add(s1.to_multiset()));
            }
            assert(input@.subrange(0, idx + 1) =~= input@.subrange(0, idx as int).push(
                input@[idx as int],
            ));
            assert(input@.subrange(0, idx as int).push(input@[idx as int]).to_multiset()
                == input@.subrange(0, idx as int).to_multiset().insert(input@[idx as int]));
        }
        idx = idx + 1;
    }
    proof {
        assert(input@.subrange(0, input@.len() as int) =~= input@);
    }
    out
}

impl AccountStore {
    /// Lists every account as `(login, address)`, substituting the
    /// `<error>` sentinel for a missing address rather than dropping
    /// the account, ordered by the time the address was recorded,
    /// oldest first; accounts without an address sort last.
    pub fn list_accounts(&self, now: u64) -> (r: Vec<(String, String)>)
        requires
            self.wf(),
        ensures
            forall|i: int|
                0 <= i < r@.len() ==> self@.contains_key((#[trigger] r@[i]).0@) && r@[i].1@
                    == listed_address(self@[r@[i].0@]),
            forall|i: int, j: int|
                0 <= i < j < r@.len() ==> (#[trigger] r@[i]).0@ != (#[trigger] r@[j]).0@,
            forall|k: Seq<char>|
                #[trigger] self@.contains_key(k) ==> exists|i: int|
                    0 <= i < r@.len() && (#[trigger] r@[i]).0@ == k,
            forall|i: int, j: int|
                0 <= i < j < r@.len() ==> listed_time(self@[(#[trigger] r@[i]).0@], now)
                    <= listed_time(self@[(#[trigger] r@[j]).0@], now),
    {
        let entries_len = self.accounts.len();
        let mut work: Vec<(u64, String, String)> = Vec::new();
        let mut idx: usize = 0;
        while idx < entries_len
            invariant
                entries_len == self.accounts@.len(),
                idx <= entries_len,
                work@.len() == idx,
                forall|a: int|
                    0 <= a < idx ==> row_matches(#[trigger] work@[a], self.accounts@[a], now),
            decreases entries_len - idx,
        {
            let entry = &self.accounts[idx];
            let time = if entry.1.address.is_some() {
                entry.1.address_time
            } else {
                now
            };
            let addr = match &entry.1.address {
                Some(a) => a.clone(),
                None => String::from_str("<error>"),
            };
            let login = entry.0.clone();
            work.push((time, login, addr));
            proof {
                assert(row_matches(work@[idx as int], self.accounts@[idx as int], now));
            }
            idx = idx + 1;
        }
        let ghost rows = work@;
        proof {
            assert forall|a: int, b: int|
                0 <= a < b < rows.len() implies (#[trigger] rows[a]).1@ != (
            #[trigger] rows[b]).1@ by {
                assert(self.accounts@[a].0@ != self.accounts@[b].0@);
            }
            assert forall|a: int, b: int|
                0 <= a < b < rows.len() implies rows[a] != rows[b] by {
                assert((#[trigger] rows[a]).1@ != (#[trigger] rows[b]).1@);
            }
        }
        let sorted = sort_rows(work);
        proof {
            broadcast use vstd::seq_lib::group_to_multiset_ensures;

            rows.lemma_multiset_has_no_duplicates();
            sorted@.lemma_multiset_has_no_duplicates_conv();
        }
        let ghost srows = sorted@;
        let mut r: Vec<(String, String)> = Vec::new();
        let mut a: usize = 0;
        while a < sorted.len()
            invariant
                sorted@ == srows,
                a <= srows.len(),
                r@.len() == a,
                forall|b: int|
                    0 <= b < a ==> (#[trigger] r@[b]).0@ == srows[b].1@ && r@[b].1@
                        == srows[b].2@,
            decreases srows.len() - a,
        {
            let row = &sorted[a];
            r.push((row.1.clone(), row.2.clone()));
            a = a + 1;
        }
        proof {
            broadcast use vstd::seq_lib::group_to_multiset_ensures;

            let entries = self.accounts@;
            assert forall|i: int| 0 <= i < srows.len() implies exists|j: int|
                0 <= j < rows.len() && rows[j] == #[trigger] srows[i] by {
                assert(srows.contains(srows[i]));
                assert(srows.to_multiset().count(srows[i]) > 0);
                assert(rows.to_multiset().count(srows[i]) > 0);
                assert(rows.contains(srows[i]));
            }
            assert forall|i: int|
                0 <= i < r@.len() implies self@.contains_key((#[trigger] r@[i]).0@) && r@[i].1@
                == listed_address(self@[r@[i].0@]) by {
                let j = choose|j: int| 0 <= j < rows.len() && rows[j] == srows[i];
                assert(row_matches(srows[i], entries[j], now));
                lemma_map_of_get(entries, j);
            }
            assert forall|i: int, j: int|
                0 <= i < j < r@.len() implies (#[trigger] r@[i]).0@ != (#[trigger] r@[j]).0@ by {
                let ji = choose|ji: int| 0 <= ji < rows.len() && rows[ji] == srows[i];
                let jj = choose|jj: int| 0 <= jj < rows.len() && rows[jj] == srows[j];
                assert(srows[i] != srows[j]);
                if ji == jj {
                    assert(srows[i] == srows[j]);
                    assert(false);
                } else {
                    assert(rows[ji].1@ != rows[jj].1@);
                }
            }
            assert forall|i: int, j: int|
                0 <= i < j < r@.len() implies listed_time(self@[(#[trigger] r@[i]).0@], now)
                <= listed_time(self@[(#[trigger] r@[j]).0@], now) by {
                let ji = choose|ji: int| 0 <= ji < rows.len() && rows[ji] == srows[i];
                let jj = choose|jj: int| 0 <= jj < rows.len() && rows[jj] == srows[j];
                assert(row_matches(srows[i], entries[ji], now));
                assert(row_matches(srows[j], entries[jj], now));
                lemma_map_of_get(entries, ji);
                lemma_map_of_get(entries, jj);
            }
            assert forall|k: Seq<char>| #[trigger] self@.contains_key(k) implies exists|i: int|
                0 <= i < r@.len() && (#[trigger] r@[i]).0@ == k by {
                let j = crate::kvmap::lemma_map_of_contains_index(entries, k);
                assert(row_matches(rows[j], entries[j], now));
                assert(rows.contains(rows[j]));
                assert(rows.to_multiset().count(rows[j]) > 0);
                assert(srows.to_multiset().count(rows[j]) > 0);
                assert(srows.contains(rows[j]));
                let a0 = choose|a0: int| 0 <= a0 < srows.len() && srows[a0] == rows[j];
                assert(r@[a0].0@ == k);
            }
        }
        r
    }
}


/// Account lifecycle: on a fresh login, the first create is owed
/// success; a second create of the same login fails with
/// `AlreadyExists` whatever the password; and deleting the account
/// makes a following load fail with `NoSuchAccount`.
pub proof fn lemma_account_lifecycle(
    m: Map<Seq<char>, RecordView>,
    login: Seq<char>,
    rec: RecordView,
    password: Seq<u8>,
)
    requires
        valid_login(login),
        !m.contains_key(login),
    ensures
        create_errs(m, login) is None,
        create_errs(m.insert(login, rec), login) == Some(Error::AlreadyExists),
        load_model(m.insert(login, rec).remove(login), login, password) == Err::<Seq<u8>, _>(
            Error::NoSuchAccount,
        ),
{
}

/// Creating an account and loading it with the same password hands
/// the same secret back: the stored envelope decrypts to what create
/// returned.
pub proof fn lemma_create_then_load(
    m: Map<Seq<char>, RecordView>,
    login: Seq<char>,
    rec: RecordView,
    password: Seq<u8>,
    secret: Seq<u8>,
)
    requires
        decrypt_model(rec.envelope, password) == Ok::<_, Error>(secret),
    ensures
        load_model(m.insert(login, rec), login, password) == Ok::<_, Error>(secret),
{
}

} // verus!
