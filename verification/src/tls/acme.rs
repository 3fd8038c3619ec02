//! ACME support: the http-01 challenge store served by the proxy.
//!
//! Challenges at `/.well-known/acme-challenge/<token>` are answered by
//! returning the key authorization stored here. An ACME ordering driver
//! populates this store before asking the CA to validate, then removes the
//! entry afterwards, writes the issued certificate to the cert files, and
//! triggers a config reload so the new certificate is served.

use crate::text::{chars_of, has_prefix, string_of};
use dashmap::DashMap;
use vstd::prelude::*;
use vstd::slice::slice_subrange;

verus! {

/// Path prefix the proxy intercepts for http-01 challenges.
pub const ACME_CHALLENGE_PREFIX: &'static str = "/.well-known/acme-challenge/";

/// The entries of a map from challenge token to key authorization.
pub uninterp spec fn challenge_entries(m: DashMap<String, String>) -> Map<Seq<char>, Seq<char>>;

/// `DashMap::new`: a map without entries.
#[verifier::external_body]
fn challenge_new() -> (r: DashMap<String, String>)
    ensures
        (challenge_entries(r) == Map::<Seq<char>, Seq<char>>::empty()),
{
    DashMap::new()
}

/// `DashMap::insert`: the value of the key becomes the given one; the other
/// entries stay.
#[verifier::external_body]
fn challenge_insert(m: &mut DashMap<String, String>, token: &str, key_authorization: &str)
    ensures
        challenge_entries(*final(m)) == challenge_entries(*old(m)).insert(
            token@,
            key_authorization@,
        ),
{
    m.insert(token.to_string(), key_authorization.to_string());
}

/// `DashMap::get`: a copy of the value of the key, if the map has one.
#[verifier::external_body]
fn challenge_get(m: &DashMap<String, String>, token: &str) -> (r: Option<String>)
    ensures
        match r {
            Some(v) => challenge_entries(*m).contains_key(token@) && v@ == challenge_entries(
                *m,
            )[token@],
            None => !challenge_entries(*m).contains_key(token@),
        },
{
    m.get(token).map(|e| e.value().clone())
}

/// `DashMap::remove`: the key has no entry afterwards; the other entries stay.
#[verifier::external_body]
fn challenge_remove(m: &mut DashMap<String, String>, token: &str)
    ensures
        challenge_entries(*final(m)) == challenge_entries(*old(m)).remove(token@),
{
    m.remove(token);
}

/// `DashMap::len`: the number of entries, 0 only where there is none.
#[verifier::external_body]
fn challenge_len(m: &DashMap<String, String>) -> (r: usize)
    ensures
        r == challenge_entries(*m).len(),
        ((r == 0) == (challenge_entries(*m) == Map::<Seq<char>, Seq<char>>::empty())),
{
    m.len()
}

/// A token to key-authorization store for ACME http-01 challenges.
pub struct ChallengeStore {
    map: DashMap<String, String>,
}

impl ChallengeStore {
    /// The registered challenges.
    pub closed spec fn challenges(self) -> Map<Seq<char>, Seq<char>> {
        challenge_entries(self.map)
    }

    /// The key authorization a request path asks for, if it is a challenge
    /// request with a registered token.
    pub open spec fn answer(self, path: Seq<char>) -> Option<Seq<char>> {
        let token = path.skip(ACME_CHALLENGE_PREFIX@.len() as int);
        if ACME_CHALLENGE_PREFIX@.is_prefix_of(path) && self.challenges().contains_key(token) {
            Some(self.challenges()[token])
        } else {
            None
        }
    }

    /// A store without challenges.
    pub fn new() -> (r: Self)
        ensures
            r.challenges() == Map::<Seq<char>, Seq<char>>::empty(),
    {
        ChallengeStore { map: challenge_new() }
    }

    /// Register a challenge token and its key authorization (called before
    /// asking the CA to validate).
    pub fn set(&mut self, token: &str, key_authorization: &str)
        ensures
            final(self).challenges() == old(self).challenges().insert(
                token@,
                key_authorization@,
            ),
    {
        challenge_insert(&mut self.map, token, key_authorization);
    }

    /// Look up the key authorization for a token.
    pub fn get(&self, token: &str) -> (r: Option<String>)
        ensures
            match r {
                Some(v) => self.challenges().contains_key(token@) && v@
                    == self.challenges()[token@],
                None => !self.challenges().contains_key(token@),
            },
    {
        challenge_get(&self.map, token)
    }

    /// Remove a challenge (called after validation completes).
    pub fn remove(&mut self, token: &str)
        ensures
            final(self).challenges() == old(self).challenges().remove(token@),
    {
        challenge_remove(&mut self.map, token);
    }

    /// Given a full request path, return the key authorization if it is an
    /// http-01 challenge request with a known token.
    pub fn resolve_path(&self, path: &str) -> (r: Option<String>)
        ensures
            match r {
                Some(v) => self.answer(path@) == Some(v@),
                None => self.answer(path@) is None,
            },
    {
        let p = chars_of(path);
        let prefix = chars_of(ACME_CHALLENGE_PREFIX);
        if !has_prefix(p.as_slice(), prefix.as_slice()) {
            return None;
        }
        let rest = slice_subrange(p.as_slice(), prefix.len(), p.len());
        assert(rest@ =~= path@.skip(ACME_CHALLENGE_PREFIX@.len() as int));
        let token = string_of(rest);
        self.get(token.as_str())
    }

    /// The number of registered challenges.
    pub fn len(&self) -> (r: usize)
        ensures
            r == self.challenges().len(),
    {
        challenge_len(&self.map)
    }

    /// Whether no challenge is registered.
    pub fn is_empty(&self) -> (r: bool)
        ensures
            r == (self.challenges() == Map::<Seq<char>, Seq<char>>::empty()),
    {
        challenge_len(&self.map) == 0
    }
}

impl Default for ChallengeStore {
    fn default() -> (r: Self)
        ensures
            r.challenges() == Map::<Seq<char>, Seq<char>>::empty(),
    {
        ChallengeStore::new()
    }
}

/// A registered challenge is answered at its path until it is removed, and
/// then no longer; challenges of other tokens are not touched.
pub proof fn law_challenge_life_cycle(
    before: ChallengeStore,
    registered: ChallengeStore,
    removed: ChallengeStore,
    token: Seq<char>,
    key_authorization: Seq<char>,
    other: Seq<char>,
)
    requires
        registered.challenges() == before.challenges().insert(token, key_authorization),
        removed.challenges() == registered.challenges().remove(token),
        other != token,
    ensures
        registered.answer(ACME_CHALLENGE_PREFIX@ + token) == Some(key_authorization),
        removed.answer(ACME_CHALLENGE_PREFIX@ + token) is None,
        registered.answer(ACME_CHALLENGE_PREFIX@ + other) == before.answer(
            ACME_CHALLENGE_PREFIX@ + other,
        ),
        removed.answer(ACME_CHALLENGE_PREFIX@ + other) == before.answer(
            ACME_CHALLENGE_PREFIX@ + other,
        ),
{
    let p = ACME_CHALLENGE_PREFIX@;
    assert((p + token).subrange(0, p.len() as int) =~= p);
    assert((p + token).skip(p.len() as int) =~= token);
    assert((p + other).subrange(0, p.len() as int) =~= p);
    assert((p + other).skip(p.len() as int) =~= other);
}

/// A path is answered exactly when it is the challenge path followed by a
/// registered token, and the answer is the key authorization of that token.
pub proof fn law_challenge_paths(store: ChallengeStore, path: Seq<char>, token: Seq<char>)
    ensures
        store.answer("/.well-known/acme-challenge/"@ + token)
            == if store.challenges().contains_key(token) {
            Some(store.challenges()[token])
        } else {
            None
        },
        !"/.well-known/acme-challenge/"@.is_prefix_of(path) ==> store.answer(path) is None,
{
    let p = "/.well-known/acme-challenge/"@;
    assert((p + token).subrange(0, p.len() as int) =~= p);
    assert((p + token).skip(p.len() as int) =~= token);
}

}
