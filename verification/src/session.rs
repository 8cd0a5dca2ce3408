//! The in-memory session key-value store.
//!
//! A small mapping from string keys to string values, alive only for
//! the running process, changed through explicit `set` and read
//! through `get`.  `set` with no value removes the key; either way it
//! hands back what was stored before.

use vstd::prelude::*;

use crate::kvmap::{
    keys_distinct, lemma_map_of_absent, lemma_map_of_get, lemma_map_of_remove, map_of,
};

verus! {

/// The session key under which the current-user record is stored.
pub const USER_SESSION_KEY: &'static str = "user";

/// How one character is written inside a JSON string: quote and
/// backslash get a backslash escape, everything else stands as it is.
pub open spec fn escape_char(c: char) -> Seq<char> {
    if c == '"' {
        seq!['\\', '"']
    } else if c == '\\' {
        seq!['\\', '\\']
    } else {
        seq![c]
    }
}

/// A string with every character escaped for a JSON string body.
pub open spec fn spec_escape(s: Seq<char>) -> Seq<char>
    decreases s.len(),
{
    if s.len() == 0 {
        Seq::empty()
    } else {
        escape_char(s[0]) + spec_escape(s.drop_first())
    }
}

proof fn lemma_escape_concat(a: Seq<char>, b: Seq<char>)
    ensures
        spec_escape(a + b) == spec_escape(a) + spec_escape(b),
    decreases a.len(),
{
    if a.len() == 0 {
        assert(a + b =~= b);
        assert(spec_escape(a) + spec_escape(b) =~= spec_escape(b));
    } else {
        assert((a + b).drop_first() =~= a.drop_first() + b);
        lemma_escape_concat(a.drop_first(), b);
        assert(escape_char((a + b)[0]) + (spec_escape(a.drop_first()) + spec_escape(b))
            =~= (escape_char(a[0]) + spec_escape(a.drop_first())) + spec_escape(b));
    }
}

proof fn lemma_escape_plain(s: Seq<char>)
    requires
        forall|i: int| 0 <= i < s.len() ==> s[i] != '"' && s[i] != '\\',
    ensures
        spec_escape(s) == s,
    decreases s.len(),
{
    if s.len() > 0 {
        lemma_escape_plain(s.drop_first());
        assert(escape_char(s[0]) + s.drop_first() =~= s);
    }
}

/// Escapes a string for use as a JSON string body: `"` becomes `\"`
/// and `\` becomes `\\`.
pub fn json_escape(s: &str) -> (r: String)
    ensures
        r@ == spec_escape(s@),
{
    let n = s.unicode_len();
    let mut out = String::new();
    let mut start: usize = 0;
    let mut i: usize = 0;
    while i < n
        invariant
            start <= i <= n,
            n == s@.len(),
            out@ == spec_escape(s@.subrange(0, start as int)),
            forall|j: int| start <= j < i ==> s@[j] != '"' && s@[j] != '\\',
        decreases n - i,
    {
        let c = s.get_char(i);
        if c == '"' || c == '\\' {
            let run = s.substring_char(start, i);
            out.append(run);
            proof {
                lemma_escape_plain(s@.subrange(start as int, i as int));
                lemma_escape_concat(
                    s@.subrange(0, start as int),
                    s@.subrange(start as int, i as int),
                );
                assert(s@.subrange(0, start as int) + s@.subrange(start as int, i as int)
                    =~= s@.subrange(0, i as int));
            }
            if c == '"' {
                out.append("\\\"");
                proof {
                    reveal_strlit("\\\"");
                    assert("\\\""@ =~= escape_char(c));
                }
            } else {
                out.append("\\\\");
                proof {
                    reveal_strlit("\\\\");
                    assert("\\\\"@ =~= escape_char(c));
                }
            }
            proof {
                lemma_escape_concat(s@.subrange(0, i as int), s@.subrange(i as int, i + 1));
                assert(s@.subrange(i as int, i + 1) =~= seq![c]);
                assert(spec_escape(seq![c]) =~= escape_char(c) + spec_escape(
                    seq![c].drop_first(),
                ));
                assert(seq![c].drop_first() =~= Seq::<char>::empty());
                assert(escape_char(c) + Seq::<char>::empty() =~= escape_char(c));
                assert(s@.subrange(0, i as int) + s@.subrange(i as int, i + 1) =~= s@.subrange(
                    0,
                    i + 1,
                ));
            }
            start = i + 1;
        }
        i = i + 1;
    }
    let run = s.substring_char(start, n);
    out.append(run);
    proof {
        lemma_escape_plain(s@.subrange(start as int, n as int));
        lemma_escape_concat(s@.subrange(0, start as int), s@.subrange(start as int, n as int));
        assert(s@.subrange(0, start as int) + s@.subrange(start as int, n as int) =~= s@.subrange(
            0,
            n as int,
        ));
        assert(s@.subrange(0, n as int) =~= s@);
    }
    out
}

/// The current-user record: a JSON object with the login under
/// `username` and the public address under `address`, both escaped.
pub open spec fn spec_user_record(login: Seq<char>, address: Seq<char>) -> Seq<char> {
    "{\"username\":\""@ + spec_escape(login) + "\",\"address\":\""@ + spec_escape(address)
        + "\"}"@
}

/// Builds the current-user record stored under [`USER_SESSION_KEY`]
/// after a successful sign-in.
pub fn user_record(login: &str, address: &str) -> (r: String)
    ensures
        r@ == spec_user_record(login@, address@),
{
    let mut out = String::from_str("{\"username\":\"");
    let escaped_login = json_escape(login);
    out.append(escaped_login.as_str());
    out.append("\",\"address\":\"");
    let escaped_address = json_escape(address);
    out.append(escaped_address.as_str());
    out.append("\"}");
    out
}

/// The process-lifetime session store: string keys to string values.
pub struct SessionStore {
    entries: Vec<(String, String)>,
}

impl View for SessionStore {
    type V = Map<Seq<char>, Seq<char>>;

    closed spec fn view(&self) -> Map<Seq<char>, Seq<char>> {
        map_of(self.entries@)
    }
}

impl SessionStore {
    /// No two entries share a key.
    pub closed spec fn wf(&self) -> bool {
        keys_distinct(self.entries@)
    }

    /// An empty store.
    pub fn new() -> (r: SessionStore)
        ensures
            r.wf(),
            r@ == Map::<Seq<char>, Seq<char>>::empty(),
    {
        SessionStore { entries: Vec::new() }
    }

    fn find_index(&self, key: &String) -> (r: Option<usize>)
        ensures
            match r {
                Some(i) => i < self.entries@.len() && self.entries@[i as int].0@ == key@,
                None => forall|j: int|
                    0 <= j < self.entries@.len() ==> (#[trigger] self.entries@[j]).0@ != key@,
            },
    {
        let mut i: usize = 0;
        while i < self.entries.len()
            invariant
                i <= self.entries@.len(),
                forall|j: int| 0 <= j < i ==> (#[trigger] self.entries@[j]).0@ != key@,
            decreases self.entries@.len() - i,
        {
            if self.entries[i].0 == *key {
                return Some(i);
            }
            i = i + 1;
        }
        None
    }

    /// Reads the value stored under `key`, if any.
    pub fn get(&self, key: &String) -> (r: Option<String>)
        requires
            self.wf(),
        ensures
            match r {
                Some(v) => self@.contains_key(key@) && v@ == self@[key@],
                None => !self@.contains_key(key@),
            },
    {
        match self.find_index(key) {
            Some(i) => {
                proof {
                    lemma_map_of_get(self.entries@, i as int);
                }
                Some(self.entries[i].1.clone())
            },
            None => {
                proof {
                    lemma_map_of_absent(self.entries@, key@);
                }
                None
            },
        }
    }

    /// Stores `value` under `key`, or removes the key when `value` is
    /// absent; returns what was stored before.
    pub fn set(&mut self, key: String, value: Option<String>) -> (r: Option<String>)
        requires
            old(self).wf(),
        ensures
            final(self).wf(),
            final(self)@ == (match value {
                Some(v) => old(self)@.insert(key@, v@),
                None => old(self)@.remove(key@),
            }),
            match r {
                Some(p) => old(self)@.contains_key(key@) && p@ == old(self)@[key@],
                None => !old(self)@.contains_key(key@),
            },
    {
        let ghost entries0 = self.entries@;
        let prev = match self.find_index(&key) {
            Some(i) => {
                proof {
                    lemma_map_of_get(entries0, i as int);
                    lemma_map_of_remove(entries0, i as int);
                }
                let pair = self.entries.remove(i);
                Some(pair.1)
            },
            None => {
                proof {
                    lemma_map_of_absent(entries0, key@);
                    assert(map_of(entries0) =~= map_of(entries0).remove(key@));
                }
                None
            },
        };
        proof {
            assert(keys_distinct(self.entries@));
            assert(forall|j: int|
                0 <= j < self.entries@.len() ==> (#[trigger] self.entries@[j]).0@ != key@);
            lemma_map_of_absent(self.entries@, key@);
            assert(map_of(self.entries@) == map_of(entries0).remove(key@));
        }
        match value {
            Some(v) => {
                let ghost before_push = self.entries@;
                self.entries.push((key, v));
                proof {
                    assert(self.entries@.drop_last() =~= before_push);
                    assert(map_of(self.entries@) == map_of(before_push).insert(key@, v@));
                    assert(map_of(before_push).insert(key@, v@) =~= map_of(entries0).insert(
                        key@,
                        v@,
                    ));
                }
            },
            None => {},
        }
        prev
    }
}

} // verus!
