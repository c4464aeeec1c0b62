//! The registry of interactive sessions, one per package identifier, and the
//! decisions of the workers that watch a session.
use crate::text::{chars_of, eq_chars, index_of, lemma_index_of};
use vstd::prelude::*;

verus! {

/// Why an operation on a session did not take place.
#[derive(Debug, PartialEq, Eq, Structural, Clone, Copy)]
pub enum SessionError {
    /// No live session is registered under the key.
    NotFound,
}

struct Entry<S> {
    key: String,
    session: S,
}

/// The live sessions by key. A key names at most one session; a session
/// leaves the registry only by being handed to the caller.
pub struct SessionRegistry<S> {
    entries: Vec<Entry<S>>,
}

spec fn keys_of<S>(entries: Seq<Entry<S>>) -> Seq<Seq<char>> {
    Seq::new(entries.len(), |i: int| entries[i].key@)
}

spec fn sessions_of<S>(entries: Seq<Entry<S>>) -> Seq<S> {
    Seq::new(entries.len(), |i: int| entries[i].session)
}

impl<S> SessionRegistry<S> {
    /// The keys, in the order of their slots.
    pub closed spec fn keys(&self) -> Seq<Seq<char>> {
        keys_of(self.entries@)
    }

    /// The sessions, in the order of their slots.
    pub closed spec fn sessions(&self) -> Seq<S> {
        sessions_of(self.entries@)
    }

    #[verifier::type_invariant]
    spec fn distinct_keys(&self) -> bool {
        self.keys().no_duplicates()
    }

    /// The slot of `key`; the number of slots where `key` has no session.
    pub open spec fn slot_of(&self, key: Seq<char>) -> int {
        index_of(self.keys(), key, 0)
    }

    /// The registry as a map from key to session.
    pub open spec fn view(&self) -> Map<Seq<char>, S> {
        Map::new(
            |k: Seq<char>| 0 <= self.slot_of(k) < self.keys().len(),
            |k: Seq<char>| self.sessions()[self.slot_of(k)],
        )
    }

    /// A registry without sessions.
    pub fn new() -> (r: Self)
        ensures
            r@ == Map::<Seq<char>, S>::empty(),
    {
        let r = SessionRegistry { entries: Vec::new() };
        assert(r@ =~= Map::<Seq<char>, S>::empty());
        r
    }

    fn find(&self, key: &str) -> (at: usize)
        ensures
            at == self.slot_of(key@),
            at <= self.entries@.len(),
            at < self.entries@.len() ==> self.entries@[at as int].key@ == key@,
    {
        let wanted = chars_of(key);
        let mut i: usize = 0;
        while i < self.entries.len()
            invariant
                i <= self.entries@.len(),
                wanted@ == key@,
                self.slot_of(key@) == index_of(self.keys(), key@, i as int),
            decreases self.entries@.len() - i,
        {
            if eq_chars(&chars_of(self.entries[i].key.as_str()), &wanted) {
                return i;
            }
            i += 1;
        }
        i
    }

    /// Whether `key` has a session.
    pub fn contains(&self, key: &str) -> (b: bool)
        ensures
            b == self@.contains_key(key@),
    {
        self.find(key) < self.entries.len()
    }

    /// The session of `key`, to read.
    pub fn session(&self, key: &str) -> (r: Result<&S, SessionError>)
        ensures
            match r {
                Ok(s) => self@.contains_key(key@) && *s == self@[key@],
                Err(e) => !self@.contains_key(key@) && e == SessionError::NotFound,
            },
    {
        let at = self.find(key);
        if at < self.entries.len() {
            Ok(&self.entries[at].session)
        } else {
            Err(SessionError::NotFound)
        }
    }

    /// Runs `work` on the session of `key`. Without such a session `work` is
    /// not run.
    pub fn with_session<R, F: FnOnce(&S) -> R>(&self, key: &str, work: F) -> (r: Result<
        R,
        SessionError,
    >)
        requires
            self@.contains_key(key@) ==> work.requires((&self@[key@],)),
        ensures
            match r {
                Ok(done) => self@.contains_key(key@) && work.ensures((&self@[key@],), done),
                Err(e) => !self@.contains_key(key@) && e == SessionError::NotFound,
            },
    {
        match self.session(key) {
            Ok(s) => Ok(work(s)),
            Err(e) => Err(e),
        }
    }

    /// Registers `session` under `key`. A session that `key` had before is
    /// handed back, for the caller to terminate; it is in the registry no
    /// longer.
    pub fn insert(&mut self, key: &str, session: S) -> (evicted: Option<S>)
        ensures
            final(self)@ == old(self)@.insert(key@, session),
            evicted == (if old(self)@.contains_key(key@) {
                Some(old(self)@[key@])
            } else {
                None
            }),
    {
        let at = self.find(key);
        let ghost keys = self.keys();
        let ghost sessions = self.sessions();
        let ghost before = self@;
        proof {
            use_type_invariant(&*self);
            lemma_index_of(keys, key@, 0);
        }
        let mut held: Vec<Entry<S>> = Vec::new();
        core::mem::swap(&mut self.entries, &mut held);
        let evicted = if at < held.len() {
            let mut incoming = session;
            core::mem::swap(&mut held[at].session, &mut incoming);
            Some(incoming)
        } else {
            held.push(Entry { key: String::from_str(key), session });
            None
        };
        proof {
            let after = keys_of(held@);
            assert(at < keys.len() ==> after =~= keys);
            assert(at == keys.len() ==> after =~= keys.push(key@));
            assert(at < keys.len() ==> sessions_of(held@) =~= sessions.update(at as int, session));
            assert(at == keys.len() ==> sessions_of(held@) =~= sessions.push(session));
            assert(after.no_duplicates());
        }
        core::mem::swap(&mut self.entries, &mut held);
        proof {
            let after = self.keys();
            assert forall|k: Seq<char>|
                self@.contains_key(k) == #[trigger] before.insert(key@, session).contains_key(k)
                    && (self@.contains_key(k) ==> self@[k] == before.insert(key@, session)[k]) by {
                lemma_index_of(keys, k, 0);
                lemma_index_of(after, k, 0);
                let ro = index_of(keys, k, 0);
                let rn = index_of(after, k, 0);
                assert(before.contains_key(k) == (ro < keys.len()));
                assert(self@.contains_key(k) == (rn < after.len()));
                if at < keys.len() {
                    assert(rn == ro);
                } else {
                    assert(after[keys.len() as int] == key@);
                    if rn < keys.len() {
                        assert(keys[rn] == k);
                    }
                    if ro < keys.len() {
                        assert(after[ro] == k);
                    }
                }
            }
            assert(self@ =~= before.insert(key@, session));
        }
        evicted
    }

    /// Takes the session of `key` out of the registry and hands it to the
    /// caller.
    pub fn remove(&mut self, key: &str) -> (taken: Option<S>)
        ensures
            final(self)@ == old(self)@.remove(key@),
            taken == (if old(self)@.contains_key(key@) {
                Some(old(self)@[key@])
            } else {
                None
            }),
    {
        let at = self.find(key);
        let ghost keys = self.keys();
        let ghost sessions = self.sessions();
        let ghost before = self@;
        proof {
            use_type_invariant(&*self);
            lemma_index_of(keys, key@, 0);
        }
        let mut held: Vec<Entry<S>> = Vec::new();
        core::mem::swap(&mut self.entries, &mut held);
        let taken = if at < held.len() {
            let e = held.remove(at);
            Some(e.session)
        } else {
            None
        };
        proof {
            let after = keys_of(held@);
            assert(at < keys.len() ==> after =~= keys.remove(at as int));
            assert(at == keys.len() ==> after =~= keys);
            assert(at < keys.len() ==> sessions_of(held@) =~= sessions.remove(at as int));
            assert(at == keys.len() ==> sessions_of(held@) =~= sessions);
            assert(after.no_duplicates());
        }
        core::mem::swap(&mut self.entries, &mut held);
        proof {
            let after = self.keys();
            assert forall|k: Seq<char>|
                self@.contains_key(k) == #[trigger] before.remove(key@).contains_key(k) && (
                self@.contains_key(k) ==> self@[k] == before.remove(key@)[k]) by {
                lemma_index_of(keys, k, 0);
                lemma_index_of(after, k, 0);
                let ro = index_of(keys, k, 0);
                let rn = index_of(after, k, 0);
                assert(before.contains_key(k) == (ro < keys.len()));
                assert(self@.contains_key(k) == (rn < after.len()));
                if at < keys.len() {
                    if ro < at {
                        assert(after[ro] == k);
                        assert(rn == ro);
                    } else if ro == at {
                        assert(k == key@);
                        assert(rn == after.len());
                    } else if ro < keys.len() {
                        assert(after[ro - 1] == k);
                        assert(rn == ro - 1);
                    } else {
                        assert(rn == after.len());
                    }
                } else {
                    assert(rn == ro);
                }
            }
            assert(self@ =~= before.remove(key@));
        }
        taken
    }

    /// Starts over for `key`: a session that `key` has is taken out and
    /// handed to `terminate`, and only then is `session` registered. At no
    /// time does `key` name two sessions.
    pub fn start<F: FnOnce(S)>(&mut self, key: &str, session: S, terminate: F)
        requires
            old(self)@.contains_key(key@) ==> terminate.requires((old(self)@[key@],)),
        ensures
            final(self)@ == old(self)@.insert(key@, session),
            old(self)@.contains_key(key@) ==> terminate.ensures((old(self)@[key@],), ()),
    {
        match self.remove(key) {
            Some(before) => {
                terminate(before);
            },
            None => {},
        }
        assert(!self@.contains_key(key@));
        let ghost between = self@;
        let none = self.insert(key, session);
        assert(none is None);
        assert(between.insert(key@, session) =~= old(self)@.insert(key@, session));
    }

    /// Takes the session of `key` out of the registry, to be terminated.
    pub fn take(&mut self, key: &str) -> (r: Result<S, SessionError>)
        ensures
            final(self)@ == old(self)@.remove(key@),
            match r {
                Ok(s) => old(self)@.contains_key(key@) && s == old(self)@[key@],
                Err(e) => !old(self)@.contains_key(key@) && e == SessionError::NotFound,
            },
    {
        match self.remove(key) {
            Some(s) => Ok(s),
            None => Err(SessionError::NotFound),
        }
    }

    /// Applies what polling the process of `key` reported: a session whose
    /// process is no longer running leaves the registry.
    pub fn settle(&mut self, key: &str, poll: Poll) -> (r: Settled<S>)
        ensures
            r.alive == (old(self)@.contains_key(key@) && poll == Poll::Running),
            r.announce == (old(self)@.contains_key(key@) && poll == Poll::Exited),
            r.alive ==> final(self)@ == old(self)@ && r.evicted is None,
            !r.alive ==> final(self)@ == old(self)@.remove(key@),
            !r.alive && old(self)@.contains_key(key@) ==> r.evicted == Some(old(self)@[key@]),
            !old(self)@.contains_key(key@) ==> r.evicted is None,
    {
        let present = self.contains(key);
        match poll {
            Poll::Running => {
                if !present {
                    assert(self@.remove(key@) =~= self@);
                }
                Settled { alive: present, announce: false, evicted: None }
            },
            Poll::Exited => {
                let evicted = self.remove(key);
                Settled { alive: false, announce: present, evicted }
            },
            Poll::Failed => {
                let evicted = self.remove(key);
                Settled { alive: false, announce: false, evicted }
            },
        }
    }
}

/// What polling a process reported.
#[derive(Debug, PartialEq, Eq, Structural, Clone, Copy)]
pub enum Poll {
    /// The process has not exited.
    Running,
    /// The process has exited.
    Exited,
    /// The state of the process could not be read.
    Failed,
}

/// What became of a session after a poll.
pub struct Settled<S> {
    /// The session is registered and its process runs.
    pub alive: bool,
    /// The end of the session is to be announced: it was registered and its
    /// process has exited.
    pub announce: bool,
    /// The session that left the registry.
    pub evicted: Option<S>,
}

/// Milliseconds between the start of a session and the confirmation that is
/// written to it.
pub const CONFIRM_DELAY_MS: u64 = 1500;

/// Milliseconds between two polls of a session's process.
pub const WATCH_INTERVAL_MS: u64 = 500;

/// What is written to a session for `text`: the text and a line feed.
pub fn input_line(text: &str) -> (line: String)
    ensures
        line@ == text@ + "\n"@,
{
    let mut line = String::from_str(text);
    line.append("\n");
    line
}

/// The message for a key without a session.
pub fn not_found_message(key: &str) -> (message: String)
    ensures
        message@ == "No process found for app_id: "@ + key@,
{
    let mut message = String::from_str("No process found for app_id: ");
    message.append(key);
    message
}

/// Starting over for a key: once its session has been taken out and a new
/// one registered, the key names the new session, the other keys name what
/// they named, and in between the key named none.
pub proof fn lemma_restart_replaces<S>(before: Map<Seq<char>, S>, key: Seq<char>, fresh: S)
    ensures
        !before.remove(key).contains_key(key),
        before.remove(key).insert(key, fresh) == before.insert(key, fresh),
        before.insert(key, fresh)[key] == fresh,
        forall|other: Seq<char>|
            other != key ==> (#[trigger] before.insert(key, fresh).contains_key(other)
                == before.contains_key(other)),
        forall|other: Seq<char>|
            other != key && before.contains_key(other) ==> #[trigger] before.insert(
                key,
                fresh,
            )[other] == before[other],
{
    assert(before.remove(key).insert(key, fresh) =~= before.insert(key, fresh));
}

} // verus!
