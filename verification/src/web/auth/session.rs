//! Server-side sessions: opaque random tokens with an absolute lifetime and an
//! idle timeout.

use vstd::prelude::*;
use vstd::hash_map::StringHashMap;
use crate::text::push_char;
use rand::RngExt;

verus! {

broadcast use vstd::string::group_string_axioms;

/// Idle timeout: a session not presented for this long is dead.
pub const IDLE_MS: i64 = 1_800_000;

/// One session as stored.
pub struct Session {
    pub actor: String,
    pub created_ms: i64,
    pub last_ms: i64,
    pub ttl_ms: i64,
}

/// A session as the contracts see it.
pub struct SessionView {
    pub actor: Seq<char>,
    pub created_ms: i64,
    pub last_ms: i64,
    pub ttl_ms: i64,
}

impl View for Session {
    type V = SessionView;

    open spec fn view(&self) -> SessionView {
        SessionView {
            actor: self.actor@,
            created_ms: self.created_ms,
            last_ms: self.last_ms,
            ttl_ms: self.ttl_ms,
        }
    }
}

/// A session is live at `now_ms`: neither past its absolute expiry
/// (`created_ms + ttl_ms`) nor idle for longer than `IDLE_MS`.
pub open spec fn is_live(s: SessionView, now_ms: i64) -> bool {
    now_ms <= s.created_ms + s.ttl_ms && now_ms <= s.last_ms + IDLE_MS
}

/// The store of sessions, keyed by token.
pub struct SessionStore {
    map: StringHashMap<Session>,
    keys: Vec<String>,
}

/// The lowercase hexadecimal digit of a value below 16.
pub open spec fn hex_char(v: int) -> char {
    if v < 10 { ('0' as int + v) as char } else { ('a' as int + v - 10) as char }
}

/// Two lowercase hexadecimal digits per byte, high nibble first.
pub open spec fn hex_of(b: Seq<u8>) -> Seq<char>
    decreases b.len(),
{
    if b.len() == 0 {
        Seq::empty()
    } else {
        hex_of(b.drop_last()).push(hex_char(b.last() as int / 16)).push(hex_char(b.last() as int % 16))
    }
}

proof fn lemma_hex_of_len(b: Seq<u8>)
    ensures
        hex_of(b).len() == 2 * b.len(),
    decreases b.len(),
{
    if b.len() > 0 {
        lemma_hex_of_len(b.drop_last());
    }
}

fn hex_digit_char(v: u8) -> (c: char)
    requires
        v < 16,
    ensures
        c == hex_char(v as int),
{
    if v < 10 {
        ((48u8 + v) as char)
    } else {
        ((87u8 + v) as char)
    }
}

/// Lowercase hexadecimal encoding, two digits per byte.
pub fn hex(b: &[u8]) -> (s: String)
    ensures
        s@ == hex_of(b@),
        s@.len() == 2 * b@.len(),
{
    let mut s = String::new();
    let mut i: usize = 0;
    while i < b.len()
        invariant
            0 <= i <= b@.len(),
            s@ == hex_of(b@.subrange(0, i as int)),
        decreases b@.len() - i,
    {
        let x = b[i];
        push_char(&mut s, hex_digit_char(x / 16));
        push_char(&mut s, hex_digit_char(x % 16));
        assert(b@.subrange(0, i + 1).drop_last() =~= b@.subrange(0, i as int));
        i += 1;
    }
    assert(b@.subrange(0, b@.len() as int) =~= b@);
    proof { lemma_hex_of_len(b@); }
    s
}

/// `n` bytes from the thread-local CSPRNG of `rand`.
#[verifier::external_body]
pub fn random_bytes(n: usize) -> (v: Vec<u8>)
    ensures
        v@.len() == n,
{
    let mut v = vec![0u8; n];
    rand::rng().fill(&mut v[..]);
    v
}


/// A session as `create` stores it.
pub open spec fn fresh_session(actor: Seq<char>, now_ms: i64, ttl_ms: i64) -> SessionView {
    SessionView { actor, created_ms: now_ms, last_ms: now_ms, ttl_ms }
}

/// Law: a session that was just created is live at every later time that is
/// within both its lifetime and the idle timeout, so `validate` returns its
/// actor there; past either bound it is dead, so `validate` returns nothing.
pub proof fn law_created_session_lives_until_expiry(
    sessions: Map<Seq<char>, SessionView>,
    token: Seq<char>,
    actor: Seq<char>,
    created_ms: i64,
    ttl_ms: i64,
    now_ms: i64,
)
    requires
        created_ms <= now_ms,
    ensures
        ({
            let after = sessions.insert(token, fresh_session(actor, created_ms, ttl_ms));
            &&& after.contains_key(token)
            &&& after[token].actor == actor
            &&& is_live(after[token], now_ms)
                <==> (now_ms <= created_ms + ttl_ms && now_ms <= created_ms + IDLE_MS)
        }),
{
}

/// Law: once a token is removed, the store no longer holds it, so `validate`
/// on it returns nothing; the other sessions stay as they were.
pub proof fn law_removed_token_is_gone(sessions: Map<Seq<char>, SessionView>, token: Seq<char>, other: Seq<char>)
    requires
        other != token,
    ensures
        !sessions.remove(token).contains_key(token),
        sessions.remove(token).contains_key(other) == sessions.contains_key(other),
        sessions.contains_key(other) ==> sessions.remove(token)[other] == sessions[other],
{
}

/// Law: after a sweep at `now_ms`, every stored session is live at `now_ms`,
/// and every session that was live then is still stored, unchanged.
pub proof fn law_sweep_keeps_exactly_the_live(sessions: Map<Seq<char>, SessionView>, now_ms: i64, k: Seq<char>)
    ensures
        ({
            let after = sessions.restrict(Set::new(|t: Seq<char>| sessions.contains_key(t) && is_live(sessions[t], now_ms)));
            &&& after.contains_key(k) <==> (sessions.contains_key(k) && is_live(sessions[k], now_ms))
            &&& after.contains_key(k) ==> after[k] == sessions[k]
        }),
{
}

/// Law: a store holds finitely many sessions, so its length is the size of
/// its map of sessions and changes by one with each new or dropped token.
pub proof fn law_store_is_finite(s: &SessionStore)
    requires
        s.wf(),
    ensures
        s.spec_sessions().dom().finite(),
{
    s.lemma_finite();
}

impl Default for SessionStore {
    /// An empty store.
    fn default() -> (s: SessionStore)
        ensures
            s.wf(),
            s.spec_sessions() == Map::<Seq<char>, SessionView>::empty(),
    {
        SessionStore::new()
    }
}

impl SessionStore {
    /// Tokens map to sessions; `keys` lists each token once.
    pub closed spec fn wf(&self) -> bool {
        &&& forall|i: int| 0 <= i < self.keys@.len() ==> self.map@.contains_key(#[trigger] self.keys@[i]@)
        &&& forall|k: Seq<char>| #[trigger] self.map@.contains_key(k) ==> exists|i: int| 0 <= i < self.keys@.len() && self.keys@[i]@ == k
    }

    /// The sessions, by token.
    pub closed spec fn spec_sessions(&self) -> Map<Seq<char>, SessionView> {
        self.map@.map_values(|s: Session| s@)
    }

    proof fn lemma_finite(&self)
        requires
            self.wf(),
        ensures
            self.spec_sessions().dom().finite(),
    {
        broadcast use vstd::seq_lib::seq_to_set_is_finite;
        let ks = self.keys@.map_values(|k: String| k@);
        assert(self.spec_sessions().dom().subset_of(ks.to_set())) by {
            assert forall|k: Seq<char>| #[trigger] self.spec_sessions().dom().contains(k) implies ks.to_set().contains(k) by {
                assert(self.map@.contains_key(k));
                let i = choose|i: int| 0 <= i < self.keys@.len() && self.keys@[i]@ == k;
                assert(ks[i] == k);
            }
        }
        vstd::set_lib::lemma_set_subset_finite(ks.to_set(), self.spec_sessions().dom());
    }

    pub fn new() -> (s: SessionStore)
        ensures
            s.wf(),
            s.spec_sessions() == Map::<Seq<char>, SessionView>::empty(),
    {
        let s = SessionStore { map: StringHashMap::new(), keys: Vec::new() };
        assert(s.spec_sessions() =~= Map::<Seq<char>, SessionView>::empty());
        s
    }

    /// A 256-bit CSPRNG token, hex-encoded (64 characters). Also used on its
    /// own for the CSRF value, which is never stored.
    pub fn random_token() -> (t: String)
        ensures
            t@.len() == 64,
            exists|b: Seq<u8>| b.len() == 32 && t@ == hex_of(b),
    {
        let b = random_bytes(32);
        let t = hex(b.as_slice());
        assert(b@.len() == 32 && t@ == hex_of(b@));
        t
    }

    /// Number of stored sessions.
    pub fn len(&self) -> (n: usize)
        ensures
            n == self.spec_sessions().len(),
    {
        proof { assert(self.spec_sessions().dom() =~= self.map@.dom()); }
        self.map.len()
    }

    /// No session is stored.
    pub fn is_empty(&self) -> (b: bool)
        ensures
            b == (self.spec_sessions().len() == 0),
    {
        self.len() == 0
    }

    /// Stores a new session for `actor` under a fresh random token and
    /// returns the token.
    pub fn create(&mut self, actor: &str, now_ms: i64, ttl_ms: i64) -> (token: String)
        requires
            old(self).wf(),
        ensures
            final(self).wf(),
            token@.len() == 64,
            exists|b: Seq<u8>| b.len() == 32 && token@ == hex_of(b),
            final(self).spec_sessions() == old(self).spec_sessions().insert(token@,
                fresh_session(actor@, now_ms, ttl_ms)),
    {
        let token = Self::random_token();
        let session = Session {
            actor: String::from_str(actor),
            created_ms: now_ms,
            last_ms: now_ms,
            ttl_ms,
        };
        let ghost old_map = self.map@;
        let present = self.map.contains_key(token.as_str());
        let key = token.clone();
        self.map.insert(key, session);
        if !present {
            self.keys.push(token.clone());
        }
        proof {
            assert forall|k: Seq<char>| #[trigger] self.map@.contains_key(k)
                implies exists|i: int| 0 <= i < self.keys@.len() && self.keys@[i]@ == k by {
                if k != token@ {
                    assert(old_map.contains_key(k));
                    let i = choose|i: int| 0 <= i < old(self).keys@.len() && old(self).keys@[i]@ == k;
                    assert(self.keys@[i] == old(self).keys@[i]);
                } else if !present {
                    assert(self.keys@[self.keys@.len() - 1]@ == k);
                } else {
                    let i = choose|i: int| 0 <= i < old(self).keys@.len() && old(self).keys@[i]@ == k;
                    assert(self.keys@[i] == old(self).keys@[i]);
                }
            }
            assert forall|i: int| 0 <= i < self.keys@.len() implies self.map@.contains_key(#[trigger] self.keys@[i]@) by {
                if i < old(self).keys@.len() {
                    assert(self.keys@[i] == old(self).keys@[i]);
                }
            }
            assert(self.spec_sessions() =~= old(self).spec_sessions().insert(token@, SessionView {
                actor: actor@,
                created_ms: now_ms,
                last_ms: now_ms,
                ttl_ms,
            }));
        }
        token
    }

    /// Drops the token from the key list and the map.
    fn drop_token(&mut self, token: &String)
        requires
            old(self).wf(),
        ensures
            final(self).wf(),
            final(self).spec_sessions() == old(self).spec_sessions().remove(token@),
    {
        let ghost old_map = self.map@;
        let ghost old_keys = self.keys@;
        self.map.remove(token.as_str());
        let mut kept: Vec<String> = Vec::new();
        let mut i: usize = 0;
        while i < self.keys.len()
            invariant
                self.map@ == old_map.remove(token@),
                self.keys@ == old_keys,
                0 <= i <= old_keys.len(),
                forall|j: int| 0 <= j < old_keys.len() ==> old_map.contains_key(#[trigger] old_keys[j]@),
                forall|j: int| 0 <= j < kept@.len() ==> self.map@.contains_key(#[trigger] kept@[j]@),
                forall|j: int| 0 <= j < i && old_keys[j]@ != token@
                    ==> exists|m: int| 0 <= m < kept@.len() && kept@[m]@ == #[trigger] old_keys[j]@,
            decreases old_keys.len() - i,
        {
            let ghost kept_before = kept@;
            if self.keys[i] != *token {
                kept.push(self.keys[i].clone());
                proof {
                    assert(kept@[kept@.len() - 1]@ == old_keys[i as int]@);
                }
            }
            proof {
                assert forall|j: int| 0 <= j < i + 1 && old_keys[j]@ != token@
                    implies exists|m: int| 0 <= m < kept@.len() && kept@[m]@ == #[trigger] old_keys[j]@ by {
                    if j < i {
                        let m = choose|m: int| 0 <= m < kept_before.len() && kept_before[m]@ == old_keys[j]@;
                        assert(kept@[m] == kept_before[m]);
                    } else {
                        assert(kept@[kept@.len() - 1]@ == old_keys[j]@);
                    }
                }
                assert forall|j: int| 0 <= j < kept@.len() implies self.map@.contains_key(#[trigger] kept@[j]@) by {
                    if j < kept_before.len() {
                        assert(kept@[j] == kept_before[j]);
                    }
                }
            }
            i += 1;
        }
        self.keys = kept;
        proof {
            assert forall|k: Seq<char>| #[trigger] self.map@.contains_key(k)
                implies exists|m: int| 0 <= m < self.keys@.len() && self.keys@[m]@ == k by {
                assert(old(self).map@.contains_key(k));
                let j = choose|j: int| 0 <= j < old_keys.len() && old_keys[j]@ == k;
                assert(old_keys[j]@ != token@);
                let m = choose|m: int| 0 <= m < kept@.len() && kept@[m]@ == old_keys[j]@;
                assert(self.keys@[m]@ == k);
            }
            assert(self.spec_sessions() =~= old(self).spec_sessions().remove(token@));
        }
    }

    /// Removes the session of `token`, if any.
    pub fn remove(&mut self, token: &str)
        requires
            old(self).wf(),
        ensures
            final(self).wf(),
            final(self).spec_sessions() == old(self).spec_sessions().remove(token@),
    {
        let t = String::from_str(token);
        self.drop_token(&t);
    }

    /// Returns the actor if the token names a live session, refreshing its
    /// idle timeout. Enforces both the absolute expiry (`created_ms + ttl_ms`)
    /// and the idle timeout; a token presented after either is removed.
    pub fn validate(&mut self, token: &str, now_ms: i64) -> (actor: Option<String>)
        requires
            old(self).wf(),
        ensures
            final(self).wf(),
            !old(self).spec_sessions().contains_key(token@) ==> {
                &&& actor is None
                &&& final(self).spec_sessions() == old(self).spec_sessions()
            },
            old(self).spec_sessions().contains_key(token@)
                && !is_live(old(self).spec_sessions()[token@], now_ms) ==> {
                &&& actor is None
                &&& final(self).spec_sessions() == old(self).spec_sessions().remove(token@)
            },
            old(self).spec_sessions().contains_key(token@)
                && is_live(old(self).spec_sessions()[token@], now_ms) ==> {
                let s = old(self).spec_sessions()[token@];
                &&& actor matches Some(a) && a@ == s.actor
                &&& final(self).spec_sessions() == old(self).spec_sessions().insert(token@,
                    SessionView { last_ms: now_ms, ..s })
            },
    {
        let t = String::from_str(token);
        let (live, updated) = match self.map.get(token) {
            None => { return None; },
            Some(s) => {
                let live = (now_ms as i128) <= (s.created_ms as i128) + (s.ttl_ms as i128)
                    && (now_ms as i128) <= (s.last_ms as i128) + (IDLE_MS as i128);
                (live, Session {
                    actor: s.actor.clone(),
                    created_ms: s.created_ms,
                    last_ms: now_ms,
                    ttl_ms: s.ttl_ms,
                })
            },
        };
        if !live {
            self.drop_token(&t);
            return None;
        }
        let actor = updated.actor.clone();
        let ghost old_map = self.map@;
        self.map.insert(t, updated);
        proof {
            assert forall|k: Seq<char>| #[trigger] self.map@.contains_key(k)
                implies exists|i: int| 0 <= i < self.keys@.len() && self.keys@[i]@ == k by {
                assert(old(self).map@.contains_key(k));
                let i = choose|i: int| 0 <= i < old(self).keys@.len() && old(self).keys@[i]@ == k;
                assert(self.keys@[i]@ == k);
            }
            assert(self.spec_sessions() =~= old(self).spec_sessions().insert(token@,
                SessionView { last_ms: now_ms, ..old(self).spec_sessions()[token@] }));
        }
        Some(actor)
    }

    /// Drops every session that is no longer live at `now_ms`.
    pub fn sweep(&mut self, now_ms: i64)
        requires
            old(self).wf(),
        ensures
            final(self).wf(),
            final(self).spec_sessions() == old(self).spec_sessions().restrict(
                Set::new(|k: Seq<char>| old(self).spec_sessions().contains_key(k)
                    && is_live(old(self).spec_sessions()[k], now_ms))),
    {
        let ghost old_map = self.map@;
        let ghost old_keys = self.keys@;
        let mut kept: Vec<String> = Vec::new();
        let mut i: usize = 0;
        while i < self.keys.len()
            invariant
                self.keys@ == old_keys,
                0 <= i <= old_keys.len(),
                forall|k: Seq<char>| #[trigger] old_map.contains_key(k) ==> exists|j: int| 0 <= j < old_keys.len() && old_keys[j]@ == k,
                forall|j: int| 0 <= j < old_keys.len() ==> old_map.contains_key(#[trigger] old_keys[j]@),
                forall|k: Seq<char>| #[trigger] self.map@.contains_key(k) ==> old_map.contains_key(k) && self.map@[k] == old_map[k],
                forall|k: Seq<char>| #[trigger] old_map.contains_key(k) && is_live(old_map[k]@, now_ms) ==> self.map@.contains_key(k),
                forall|j: int| 0 <= j < i ==> (self.map@.contains_key(#[trigger] old_keys[j]@) <==> is_live(old_map[old_keys[j]@]@, now_ms)),
                forall|m: int| 0 <= m < kept@.len() ==> self.map@.contains_key(#[trigger] kept@[m]@) && is_live(old_map[kept@[m]@]@, now_ms),
                forall|j: int| 0 <= j < i && self.map@.contains_key(#[trigger] old_keys[j]@)
                    ==> exists|m: int| 0 <= m < kept@.len() && kept@[m]@ == old_keys[j]@,
            decreases old_keys.len() - i,
        {
            let key = self.keys[i].clone();
            let ghost before = self.map@;
            let ghost kept_before = kept@;
            let status = match self.map.get(key.as_str()) {
                None => 0u8,
                Some(s) => {
                    if (now_ms as i128) <= (s.created_ms as i128) + (s.ttl_ms as i128)
                        && (now_ms as i128) <= (s.last_ms as i128) + (IDLE_MS as i128) {
                        1u8
                    } else {
                        2u8
                    }
                },
            };
            if status == 2 {
                self.map.remove(key.as_str());
            } else if status == 1 {
                kept.push(key);
            }
            proof {
                let ki = old_keys[i as int]@;
                assert(old_map.contains_key(ki));
                assert(status == 0 ==> !before.contains_key(ki) && !is_live(old_map[ki]@, now_ms));
                assert(status == 1 ==> before.contains_key(ki) && is_live(old_map[ki]@, now_ms));
                assert(status == 2 ==> before.contains_key(ki) && !is_live(old_map[ki]@, now_ms));
                assert forall|m: int| 0 <= m < kept@.len() implies self.map@.contains_key(#[trigger] kept@[m]@) && is_live(old_map[kept@[m]@]@, now_ms) by {
                    if m < kept_before.len() {
                        assert(kept@[m] == kept_before[m]);
                    } else {
                        assert(kept@[m]@ == ki);
                    }
                }
                assert forall|j: int| 0 <= j < i + 1 && self.map@.contains_key(#[trigger] old_keys[j]@)
                    implies exists|m: int| 0 <= m < kept@.len() && kept@[m]@ == old_keys[j]@ by {
                    if j < i {
                        assert(before.contains_key(old_keys[j]@));
                        let m = choose|m: int| 0 <= m < kept_before.len() && kept_before[m]@ == old_keys[j]@;
                        assert(kept@[m] == kept_before[m]);
                    } else {
                        assert(kept@[kept@.len() - 1]@ == old_keys[j]@);
                    }
                }
                assert forall|j: int| 0 <= j < i + 1 implies (self.map@.contains_key(#[trigger] old_keys[j]@) <==> is_live(old_map[old_keys[j]@]@, now_ms)) by {
                    if j < i {
                        assert(before.contains_key(old_keys[j]@) <==> is_live(old_map[old_keys[j]@]@, now_ms));
                    }
                }
            }
            i += 1;
        }
        self.keys = kept;
        proof {
            let live = Set::new(|k: Seq<char>| old(self).spec_sessions().contains_key(k)
                && is_live(old(self).spec_sessions()[k], now_ms));
            assert forall|k: Seq<char>| self.map@.contains_key(k) <==> old_map.contains_key(k) && is_live(old_map[k]@, now_ms) by {
                if old_map.contains_key(k) {
                    let j = choose|j: int| 0 <= j < old_keys.len() && old_keys[j]@ == k;
                    assert(self.map@.contains_key(old_keys[j]@) <==> is_live(old_map[old_keys[j]@]@, now_ms));
                }
            }
            assert forall|k: Seq<char>| #[trigger] self.map@.contains_key(k)
                implies exists|m: int| 0 <= m < self.keys@.len() && self.keys@[m]@ == k by {
                let j = choose|j: int| 0 <= j < old_keys.len() && old_keys[j]@ == k;
                assert(self.map@.contains_key(old_keys[j]@));
                let m = choose|m: int| 0 <= m < kept@.len() && kept@[m]@ == old_keys[j]@;
                assert(self.keys@[m]@ == k);
            }
            assert(self.spec_sessions() =~= old(self).spec_sessions().restrict(live));
        }
    }
}

} // verus!
