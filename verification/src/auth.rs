//! API keys: who a request speaks for.
//!
//! Every user gets one key when they are created, and it is shown once, in
//! the response that created them. What is kept of a key is its digest; a
//! newly issued key itself is held only until the sign-up response takes it,
//! and is never saved.

use vstd::prelude::*;
use vstd::utf8::encode_utf8;

use sha2::Digest;

use crate::account::UserId;
use crate::table::{lists_keys, text_before, Key, Table};
use crate::text::{decimal, hex, law_bytes_in_hex_can_be_told_apart, push_usize, with_hex};

verus! {

/// Bytes of entropy behind a key: 128 bits, as 32 hex characters.
pub const KEY_BYTES: usize = 16;

/// What every key starts with, so one is recognisable in a log or a config.
pub const KEY_PREFIX: &'static str = "fehu_";

/// What a digest starts with.
pub const DIGEST_PREFIX: &'static str = "sha256:";

/// The domain that separates key digests from every other digest.
pub const KEY_DOMAIN: &'static str = "fehu-api-key-v1\0";

/// The SHA-256 digest of a byte string.
pub uninterp spec fn sha256(bytes: Seq<u8>) -> Seq<u8>;

/// `sha2::Sha256::digest`: the digest of `bytes`, which is 32 bytes long and
/// depends on `bytes` alone.
#[verifier::external_body]
pub(crate) fn sha256_of(bytes: &Vec<u8>) -> (digest: Vec<u8>)
    ensures
        digest@ == sha256(bytes@),
        digest@.len() == 32,
{
    sha2::Sha256::digest(bytes).to_vec()
}

/// The error of `getrandom`, which only says that no entropy was to be had.
#[verifier::external_type_specification]
#[verifier::external_body]
pub struct ExRandomError(getrandom::Error);

/// `getrandom::fill`: on success, `n` bytes of operating-system entropy.
/// Which bytes they are is not stated, and neither is whether it succeeds:
/// both are the operating system's to say.
#[verifier::external_body]
fn random_bytes(n: usize) -> (r: Result<Vec<u8>, getrandom::Error>)
    ensures
        r matches Ok(bytes) ==> bytes@.len() == n,
{
    let mut bytes = vec![0u8; n];
    getrandom::fill(&mut bytes)?;
    Ok(bytes)
}

/// The operating system could not produce randomness.
#[derive(Clone, Copy, Debug, PartialEq, Eq, Structural)]
pub struct NoRandomness;

/// A digest as it is written down: `sha256:` and the hexadecimal digits.
pub open spec fn digest_text(bytes: Seq<u8>) -> Seq<char> {
    DIGEST_PREFIX@ + hex(sha256(bytes))
}

/// The digest of `bytes`, as it is written down.
pub(crate) fn digest_of(bytes: &Vec<u8>) -> (digest: String)
    ensures
        digest@ == digest_text(bytes@),
{
    with_hex(DIGEST_PREFIX, &sha256_of(bytes))
}

/// The text of a key made of the given entropy.
pub open spec fn key_text(bytes: Seq<u8>) -> Seq<char> {
    KEY_PREFIX@ + hex(bytes)
}

/// The key that the given entropy makes: [`KEY_PREFIX`] and the bytes in
/// hexadecimal.
pub fn key_from(bytes: &Vec<u8>) -> (key: String)
    ensures
        key@ == key_text(bytes@),
{
    with_hex(KEY_PREFIX, bytes)
}

/// `key` is the prefix and 32 hexadecimal digits.
pub open spec fn is_key(key: Seq<char>) -> bool {
    exists|bytes: Seq<u8>| bytes.len() == KEY_BYTES && key == #[trigger] key_text(bytes)
}

/// What a draw of entropy comes to: the key the bytes make, or that there
/// was no randomness to be had.
pub fn key_drawn(drawn: Result<Vec<u8>, getrandom::Error>) -> (r: Result<String, NoRandomness>)
    ensures
        match drawn {
            Ok(bytes) => r matches Ok(key) && key@ == key_text(bytes@),
            Err(_) => r == Err::<String, NoRandomness>(NoRandomness),
        },
{
    match drawn {
        Ok(bytes) => Ok(key_from(&bytes)),
        Err(_) => Err(NoRandomness),
    }
}

/// A new key: [`KEY_PREFIX`] and 32 hex characters of operating-system
/// entropy. Whether there is any is the operating system's to say;
/// [`key_drawn`] says what each draw comes to.
pub fn new_api_key() -> (r: Result<String, NoRandomness>)
    ensures
        r matches Ok(key) ==> is_key(key@),
{
    let drawn = random_bytes(KEY_BYTES);
    let ghost bytes = drawn;
    let r = key_drawn(drawn);
    proof {
        if r is Ok {
            assert(r->Ok_0@ == key_text(bytes->Ok_0@));
        }
    }
    r
}

/// The digest a key is known by: the domain, then the key, hashed.
pub open spec fn key_digest_text(key: Seq<char>) -> Seq<char> {
    digest_text(encode_utf8(KEY_DOMAIN@ + key))
}

/// Domain-separated SHA-256 of a randomly generated bearer credential.
/// This is for high-entropy API keys, not user-chosen passwords.
pub fn key_digest(key: &str) -> (digest: String)
    ensures
        digest@ == key_digest_text(key@),
{
    let mut text = KEY_DOMAIN.to_owned();
    text.append(key);
    digest_of(&text.as_str().as_bytes_vec())
}

/// Which digest speaks for which user, and which digest each user holds.
#[verifier::ext_equal]
pub struct Ring {
    pub by_key: Map<Seq<char>, u64>,
    pub by_user: Map<u64, Seq<char>>,
}

impl Ring {
    /// No keys at all.
    pub open spec fn empty() -> Ring {
        Ring { by_key: Map::empty(), by_user: Map::empty() }
    }

    /// The ring once `digest` has been given to `user`: what they held
    /// before speaks for nobody, and `digest` speaks for them.
    pub open spec fn put(self, digest: Seq<char>, user: u64) -> Ring {
        let kept = if self.by_user.contains_key(user) {
            self.by_key.remove(self.by_user[user])
        } else {
            self.by_key
        };
        Ring { by_key: kept.insert(digest, user), by_user: self.by_user.insert(user, digest) }
    }

    /// The ring once every pair has been put on it, in order.
    pub open spec fn put_all(self, pairs: Seq<(Seq<char>, u64)>) -> Ring
        decreases pairs.len(),
    {
        if pairs.len() == 0 {
            self
        } else {
            self.put_all(pairs.drop_last()).put(pairs.last().0, pairs.last().1)
        }
    }

    /// A digest that speaks for a user is the one that user holds, so no
    /// user has two.
    pub open spec fn wf(self) -> bool {
        forall|digest: Seq<char>| #[trigger]
            self.by_key.contains_key(digest) ==> self.by_user.contains_key(self.by_key[digest])
                && self.by_user[self.by_key[digest]] == digest
    }

    /// The user a digest speaks for.
    pub open spec fn speaks_for(self, digest: Seq<char>) -> Option<UserId> {
        if self.by_key.contains_key(digest) {
            Some(UserId(self.by_key[digest]))
        } else {
            None
        }
    }
}

/// The views of the texts of a map.
pub open spec fn texts(m: Map<u64, String>) -> Map<u64, Seq<char>> {
    m.map_values(|s: String| s@)
}

/// The pairs as plain text.
pub open spec fn pair_views(pairs: Seq<(String, u64)>) -> Seq<(Seq<char>, u64)> {
    pairs.map_values(|p: (String, u64)| (p.0@, p.1))
}

/// The keys the server has issued, and the user each one speaks for.
pub struct Keyring {
    by_key: Table<String, u64>,
    by_user: Table<u64, String>,
    issued: Table<u64, String>,
}

impl Keyring {
    /// Digests and their users.
    pub closed spec fn ring(&self) -> Ring {
        Ring { by_key: self.by_key.map(), by_user: texts(self.by_user.map()) }
    }

    /// The keys that nobody has taken yet, by user.
    pub closed spec fn issued(&self) -> Map<u64, Seq<char>> {
        texts(self.issued.map())
    }

    /// The digests, in order.
    pub closed spec fn digests(&self) -> Seq<Seq<char>> {
        self.by_key.keys()
    }

    /// What a save file holds of the keyring: each digest and its user, in
    /// the order of the digests.
    pub open spec fn saved(&self) -> Seq<(Seq<char>, u64)> {
        self.digests().map_values(|d: Seq<char>| (d, self.ring().by_key[d]))
    }

    /// The keyring is in order.
    pub closed spec fn wf(&self) -> bool {
        &&& self.by_key.wf()
        &&& self.by_user.wf()
        &&& self.issued.wf()
        &&& self.ring().wf()
    }

    /// A keyring in order is one whose ring is.
    pub proof fn lemma_wf(&self)
        requires
            self.wf(),
        ensures
            self.ring().wf(),
    {
    }

    /// The keyring is `before` once the key issued to `user` has been taken,
    /// if it was there to take.
    pub open spec fn took(&self, before: &Keyring, user: UserId) -> bool {
        &&& self.ring() == before.ring()
        &&& self.digests() == before.digests()
        &&& self.issued() == before.issued().remove(user.0)
    }

    /// Put `digest` on the ring for `user`, replacing the one they held.
    pub fn put(&mut self, digest: String, user: UserId)
        requires
            old(self).wf(),
        ensures
            final(self).wf(),
            final(self).ring() == old(self).ring().put(digest@, user.0),
            final(self).issued() == old(self).issued(),
    {
        let ghost before = *self;
        let copy = digest.clone();
        match self.by_user.insert(user.0, copy) {
            Some(held) => {
                self.by_key.remove(&held);
            },
            None => {},
        }
        self.by_key.insert(digest, user.0);
        proof {
            assert(self.ring().by_user =~= before.ring().by_user.insert(user.0, digest@));
            assert(self.ring() =~= before.ring().put(digest@, user.0));
            lemma_put_keeps_order(before.ring(), digest@, user.0);
        }
    }

    /// Give `user` the key that was drawn for them, replacing any earlier
    /// one. Where none could be drawn, the one they hold stays.
    pub fn issue_drawn(&mut self, user: UserId, drawn: Result<String, NoRandomness>) -> (r: Result<String, NoRandomness>)
        requires
            old(self).wf(),
        ensures
            final(self).wf(),
            match drawn {
                Ok(key) => {
                    &&& r matches Ok(given) && given@ == key@
                    &&& final(self).ring() == old(self).ring().put(key_digest_text(key@), user.0)
                    &&& final(self).issued() == old(self).issued().insert(user.0, key@)
                },
                Err(e) => r == Err::<String, NoRandomness>(e) && *final(self) == *old(self),
            },
    {
        match drawn {
            Ok(key) => {
                self.install(user, key.clone());
                Ok(key)
            },
            Err(e) => Err(e),
        }
    }

    /// Issue `user` a key, replacing any earlier one. Whether one can be made
    /// is the operating system's to say; [`Keyring::issue_drawn`] says what
    /// each draw comes to.
    pub fn issue(&mut self, user: UserId) -> (r: Result<String, NoRandomness>)
        requires
            old(self).wf(),
        ensures
            final(self).wf(),
            match r {
                Ok(key) => {
                    &&& is_key(key@)
                    &&& final(self).ring() == old(self).ring().put(key_digest_text(key@), user.0)
                    &&& final(self).issued() == old(self).issued().insert(user.0, key@)
                },
                Err(_) => *final(self) == *old(self),
            },
    {
        self.issue_drawn(user, new_api_key())
    }

    /// Give `user` the key `key`, replacing any earlier one, and hold it for
    /// the response that hands it out.
    pub fn install(&mut self, user: UserId, key: String)
        requires
            old(self).wf(),
        ensures
            final(self).wf(),
            final(self).ring() == old(self).ring().put(key_digest_text(key@), user.0),
            final(self).issued() == old(self).issued().insert(user.0, key@),
    {
        let ghost before = *self;
        self.put(key_digest(key.as_str()), user);
        self.issued.insert(user.0, key);
        proof {
            assert(self.issued() =~= before.issued().insert(user.0, key@));
        }
    }

    /// The user `key` speaks for, if it is one of ours.
    pub fn user_of(&self, key: &str) -> (r: Option<UserId>)
        requires
            self.wf(),
        ensures
            r == self.ring().speaks_for(key_digest_text(key@)),
    {
        match self.by_key.get(&key_digest(key)) {
            Some(user) => Some(UserId(*user)),
            None => None,
        }
    }

    /// Take the newly issued key once for the sign-up response. Restored
    /// keyrings contain only digests and cannot return the original key.
    pub fn take_issued_key(&mut self, user: UserId) -> (r: Option<String>)
        requires
            old(self).wf(),
        ensures
            final(self).wf(),
            final(self).took(old(self), user),
            match r {
                Some(key) => old(self).issued().contains_key(user.0) && key@ == old(self).issued()[user.0],
                None => !old(self).issued().contains_key(user.0),
            },
    {
        let ghost before = *self;
        let taken = self.issued.remove(&user.0);
        proof {
            assert(self.issued() =~= before.issued().remove(user.0));
        }
        taken
    }

    /// SHA-256 digests as `(digest, user id)` pairs, for a save file: in the
    /// order of the digests.
    pub fn pairs(&self) -> (pairs: Vec<(String, u64)>)
        requires
            self.wf(),
        ensures
            pair_views(pairs@) == self.saved(),
    {
        let mut pairs: Vec<(String, u64)> = Vec::new();
        let n: usize = self.by_key.len();
        let mut i: usize = 0;
        while i < n
            invariant
                self.wf(),
                n == self.digests().len(),
                i <= n,
                pair_views(pairs@) == self.digests().take(i as int).map_values(
                    |d: Seq<char>| (d, self.ring().by_key[d]),
                ),
            decreases n - i,
        {
            let digest = self.by_key.key_at(i).clone();
            let user: u64 = *self.by_key.val_at(i);
            let ghost shorter = pairs@;
            pairs.push((digest, user));
            proof {
                assert(pair_views(pairs@) =~= pair_views(shorter).push((digest@, user)));
                assert(self.digests().take(i as int + 1) =~= self.digests().take(i as int).push(digest@));
                assert(pair_views(pairs@) =~= self.digests().take(i as int + 1).map_values(
                    |d: Seq<char>| (d, self.ring().by_key[d]),
                ));
            }
            i = i + 1;
        }
        proof {
            assert(self.digests().take(n as int) =~= self.digests());
        }
        pairs
    }

    /// Rebuild a keyring from what [`Keyring::pairs`] wrote down, so a
    /// player's key still opens their account after a restart.
    pub fn from_pairs(pairs: Vec<(String, u64)>) -> (keys: Self)
        ensures
            keys.wf(),
            keys.ring() == Ring::empty().put_all(pair_views(pairs@)),
            keys.issued() == Map::<u64, Seq<char>>::empty(),
    {
        let mut keys = Keyring::default();
        let mut i: usize = 0;
        proof {
            assert(pair_views(pairs@.take(0)) =~= Seq::empty());
        }
        while i < pairs.len()
            invariant
                i <= pairs.len(),
                keys.wf(),
                keys.ring() == Ring::empty().put_all(pair_views(pairs@.take(i as int))),
                keys.issued() == Map::<u64, Seq<char>>::empty(),
            decreases pairs.len() - i,
        {
            let digest = pairs[i].0.clone();
            let user: u64 = pairs[i].1;
            keys.put(digest, UserId(user));
            proof {
                let longer = pair_views(pairs@.take(i as int + 1));
                assert(longer.drop_last() =~= pair_views(pairs@.take(i as int)));
                assert(longer.last() == (pairs@[i as int].0@, pairs@[i as int].1));
            }
            i = i + 1;
        }
        proof {
            assert(pairs@.take(pairs@.len() as int) =~= pairs@);
        }
        keys
    }

    /// Number of keys issued.
    pub fn len(&self) -> (n: usize)
        requires
            self.wf(),
        ensures
            n == self.ring().by_key.len(),
            n == self.digests().len(),
    {
        self.by_key.len()
    }

    /// No key has been issued.
    pub fn is_empty(&self) -> (r: bool)
        requires
            self.wf(),
        ensures
            r == (self.ring().by_key.len() == 0),
            r == (self.saved().len() == 0),
    {
        self.by_key.len() == 0
    }

    /// How a keyring shows itself in a log: how many keys it holds and
    /// nothing else of them.
    pub fn debug_text(&self) -> (text: String)
        requires
            self.wf(),
        ensures
            text@ == "Keyring { len: "@ + decimal(self.ring().by_key.len()) + ", .. }"@,
    {
        let mut text = "Keyring { len: ".to_owned();
        push_usize(&mut text, self.len());
        text.append(", .. }");
        text
    }
}

impl Default for Keyring {
    fn default() -> (keys: Self)
        ensures
            keys.wf(),
            keys.ring() == Ring::empty(),
            keys.issued() == Map::<u64, Seq<char>>::empty(),
    {
        let keys = Keyring { by_key: Table::new(), by_user: Table::new(), issued: Table::new() };
        proof {
            assert(keys.ring() =~= Ring::empty());
            assert(keys.issued() =~= Map::<u64, Seq<char>>::empty());
        }
        keys
    }
}

// ---------------------------------------------------------------------------
// Laws

/// Putting a digest on a ring in order leaves it in order.
pub proof fn lemma_put_keeps_order(ring: Ring, digest: Seq<char>, user: u64)
    requires
        ring.wf(),
    ensures
        ring.put(digest, user).wf(),
{
    let after = ring.put(digest, user);
    assert forall|d: Seq<char>| #[trigger] after.by_key.contains_key(d) implies after.by_user.contains_key(
        after.by_key[d],
    ) && after.by_user[after.by_key[d]] == d by {
        if d != digest {
            assert(ring.by_key.contains_key(d));
            if after.by_key[d] == user {
                assert(ring.by_user[user] == d);
            }
        }
    }
}

/// A key given to a user speaks for that user.
pub proof fn law_issued_key_speaks_for_its_user(ring: Ring, digest: Seq<char>, user: u64)
    ensures
        ring.put(digest, user).speaks_for(digest) == Some(UserId(user)),
{
}

/// Re-issuing retires the old key: the digest a user held before speaks for
/// nobody once they are given a different one.
pub proof fn law_reissuing_retires_the_old_key(ring: Ring, digest: Seq<char>, user: u64)
    requires
        ring.by_user.contains_key(user),
        ring.by_user[user] != digest,
    ensures
        ring.put(digest, user).speaks_for(ring.by_user[user]) is None,
{
}

/// Giving a user a key changes nothing about any digest but the new one and
/// the one they held before.
pub proof fn law_other_keys_are_untouched(ring: Ring, digest: Seq<char>, user: u64, other: Seq<char>)
    requires
        other != digest,
        ring.by_user.contains_key(user) ==> ring.by_user[user] != other,
    ensures
        ring.put(digest, user).speaks_for(other) == ring.speaks_for(other),
{
}

/// A keyring comes back from its pairs: every digest speaks for the user it
/// spoke for, and for nobody else.
pub proof fn law_keyring_round_trips_through_its_pairs(keys: Keyring)
    requires
        keys.wf(),
    ensures
        Ring::empty().put_all(keys.saved()).by_key == keys.ring().by_key,
{
    let ring = keys.ring();
    let digests = keys.digests();
    assert(digests.no_duplicates()) by {
        assert forall|i: int, j: int|
            0 <= i < digests.len() && 0 <= j < digests.len() && i != j implies digests[i] != digests[j] by {
            if digests[i] == digests[j] {
                keys.by_key.lemma_distinct(i, j);
            }
        }
    }
    assert forall|d: Seq<char>| ring.by_key.contains_key(d) <==> digests.contains(d) by {}
    lemma_put_all(ring, digests, digests.len() as int);
    assert(digests.take(digests.len() as int) =~= digests);
    let back = Ring::empty().put_all(keys.saved());
    assert forall|d: Seq<char>| back.by_key.contains_key(d) <==> #[trigger] ring.by_key.contains_key(d) by {
        assert(ring.by_key.contains_key(d) <==> digests.contains(d));
        if ring.by_key.contains_key(d) {
            let i = digests.index_of(d);
            assert(digests[i] == d);
        }
    }
    assert(back.by_key =~= ring.by_key);
}

/// What a save holds of a keyring is settled by its ring: the digests that
/// speak for somebody, each once and ascending, and no user twice.
pub proof fn law_the_pairs_are_listed_in_order(keys: &Keyring)
    requires
        keys.wf(),
    ensures
        lists_keys::<String, u64>(keys.digests(), keys.ring().by_key),
        keys.saved().len() == keys.ring().by_key.len(),
        forall|i: int, j: int|
            0 <= i < j < keys.saved().len() ==> text_before((#[trigger] keys.saved()[i]).0, (#[trigger] keys.saved()[j]).0)
                && keys.saved()[i].1 != keys.saved()[j].1,
{
    keys.by_key.lemma_listed();
    let ring = keys.ring();
    let digests = keys.digests();
    assert forall|i: int, j: int| 0 <= i < j < digests.len() implies text_before(
        (#[trigger] keys.saved()[i]).0,
        (#[trigger] keys.saved()[j]).0,
    ) && keys.saved()[i].1 != keys.saved()[j].1 by {
        keys.by_key.lemma_at(i);
        keys.by_key.lemma_at(j);
        assert(String::before(digests[i], digests[j]));
        assert(ring.by_key.contains_key(digests[i]));
        assert(ring.by_key.contains_key(digests[j]));
        if ring.by_key[digests[i]] == ring.by_key[digests[j]] {
            keys.by_key.lemma_distinct(i, j);
        }
    }
}

/// A keyring rebuilt from its pairs writes the same pairs down again, in the
/// same order. Every key speaks for whom it did, and no key that was issued
/// and not yet taken is held any more.
pub proof fn law_a_rebuilt_keyring_is_the_one_written_down(keys: &Keyring, back: &Keyring, digest: Seq<char>)
    requires
        keys.wf(),
        back.wf(),
        back.ring() == Ring::empty().put_all(keys.saved()),
        back.issued() == Map::<u64, Seq<char>>::empty(),
    ensures
        back.saved() == keys.saved(),
        back.ring().by_key.len() == keys.ring().by_key.len(),
        back.ring().speaks_for(digest) == keys.ring().speaks_for(digest),
        forall|user: u64| !#[trigger] back.issued().contains_key(user),
{
    law_keyring_round_trips_through_its_pairs(*keys);
    back.by_key.law_the_map_settles_the_order(&keys.by_key);
    assert(back.saved() =~= keys.saved());
}

/// An issued key is taken once: whoever comes second finds nothing. Taking it
/// changes neither whom any key speaks for, nor what a save holds, nor the
/// keys that others have still to take.
pub proof fn law_an_issued_key_is_taken_once(
    first: &Keyring,
    second: &Keyring,
    third: &Keyring,
    user: UserId,
    digest: Seq<char>,
    other: UserId,
)
    requires
        second.took(first, user),
        third.took(second, user),
        other.0 != user.0,
    ensures
        !second.issued().contains_key(user.0),
        third.issued() == second.issued(),
        third.ring().speaks_for(digest) == first.ring().speaks_for(digest),
        third.saved() == first.saved(),
        third.issued().contains_key(other.0) == first.issued().contains_key(other.0),
        first.issued().contains_key(other.0) ==> third.issued()[other.0] == first.issued()[other.0],
{
    assert(third.issued() =~= second.issued());
    assert(third.saved() =~= first.saved());
}

proof fn lemma_put_all(ring: Ring, digests: Seq<Seq<char>>, n: int)
    requires
        ring.wf(),
        0 <= n <= digests.len(),
        digests.no_duplicates(),
        forall|d: Seq<char>| ring.by_key.contains_key(d) <==> digests.contains(d),
    ensures
        ({
            let back = Ring::empty().put_all(digests.take(n).map_values(|d: Seq<char>| (d, ring.by_key[d])));
            &&& forall|d: Seq<char>| #[trigger]
                back.by_key.contains_key(d) ==> exists|i: int| 0 <= i < n && #[trigger] digests[i] == d
            &&& forall|i: int| 0 <= i < n ==> back.by_key.contains_key(#[trigger] digests[i])
            &&& forall|i: int| 0 <= i < n ==> back.by_key[#[trigger] digests[i]] == ring.by_key[digests[i]]
            &&& forall|u: u64| #[trigger]
                back.by_user.contains_key(u) ==> exists|i: int|
                    0 <= i < n && ring.by_key[#[trigger] digests[i]] == u && back.by_user[u] == digests[i]
        }),
    decreases n,
{
    let pairs = digests.take(n).map_values(|d: Seq<char>| (d, ring.by_key[d]));
    if n > 0 {
        lemma_put_all(ring, digests, n - 1);
        let shorter = digests.take(n - 1).map_values(|d: Seq<char>| (d, ring.by_key[d]));
        assert(pairs.drop_last() =~= shorter);
        let d = digests[n - 1];
        assert(pairs.last() == (d, ring.by_key[d]));
        let before = Ring::empty().put_all(shorter);
        let user = ring.by_key[d];
        assert(digests.contains(d));
        if before.by_user.contains_key(user) {
            let i = choose|i: int|
                0 <= i < n - 1 && ring.by_key[#[trigger] digests[i]] == user && before.by_user[user] == digests[i];
            assert(digests.contains(digests[i]));
            assert(ring.by_user[user] == digests[i]);
            assert(ring.by_user[user] == d);
            assert(false);
        }
        let back = Ring::empty().put_all(pairs);
        assert(back == before.put(d, user));
        assert forall|u: u64| #[trigger] back.by_user.contains_key(u) implies exists|i: int|
            0 <= i < n && ring.by_key[#[trigger] digests[i]] == u && back.by_user[u] == digests[i] by {
            if u == user {
                assert(ring.by_key[digests[n - 1]] == u);
            } else {
                assert(before.by_user.contains_key(u));
                let i = choose|i: int|
                    0 <= i < n - 1 && ring.by_key[#[trigger] digests[i]] == u && before.by_user[u] == digests[i];
                assert(ring.by_key[digests[i]] == u && back.by_user[u] == digests[i]);
            }
        }
        assert forall|x: Seq<char>| #[trigger] back.by_key.contains_key(x) implies exists|i: int|
            0 <= i < n && #[trigger] digests[i] == x by {
            if x == d {
                assert(digests[n - 1] == x);
            } else {
                assert(before.by_key.contains_key(x));
                let i = choose|i: int| 0 <= i < n - 1 && #[trigger] digests[i] == x;
                assert(digests[i] == x);
            }
        }
    }
}

/// A key is its bytes in hex behind the prefix that marks it: different bytes
/// give different keys.
pub proof fn law_different_bytes_give_different_keys(a: Vec<u8>, b: Vec<u8>, one: String, other: String)
    requires
        call_ensures(key_from, (&a,), one),
        call_ensures(key_from, (&b,), other),
    ensures
        one@.len() == KEY_PREFIX@.len() + 2 * a@.len(),
        one@.take(KEY_PREFIX@.len() as int) == KEY_PREFIX@,
        one@ == other@ ==> a@ == b@,
{
    law_bytes_in_hex_can_be_told_apart(a@, b@);
    assert(one@.take(KEY_PREFIX@.len() as int) =~= KEY_PREFIX@);
    assert(one@.skip(KEY_PREFIX@.len() as int) =~= hex(a@));
    assert(other@.skip(KEY_PREFIX@.len() as int) =~= hex(b@));
}

/// A key that was drawn is written down from the bytes that were drawn, and
/// where none could be drawn there is no key.
pub proof fn law_a_key_is_written_from_what_was_drawn(
    drawn: Result<Vec<u8>, getrandom::Error>,
    r: Result<String, NoRandomness>,
)
    requires
        call_ensures(key_drawn, (drawn,), r),
    ensures
        r is Ok <==> drawn is Ok,
        drawn matches Ok(bytes) ==> (bytes@.len() == KEY_BYTES ==> is_key((r->Ok_0)@)) && (r->Ok_0)@.len()
            == KEY_PREFIX@.len() + 2 * bytes@.len(),
{
    if drawn is Ok {
        law_bytes_in_hex_can_be_told_apart((drawn->Ok_0)@, (drawn->Ok_0)@);
        assert((r->Ok_0)@ == key_text((drawn->Ok_0)@));
    }
}

/// What is kept of a key is the digest of the key behind its domain, marked as
/// one; the key itself is not in it.
pub proof fn law_a_key_is_kept_as_its_digest(key: &str, digest: String)
    requires
        call_ensures(key_digest, (key,), digest),
    ensures
        digest@ == DIGEST_PREFIX@ + hex(sha256(encode_utf8(KEY_DOMAIN@ + key@))),
{
}

} // verus!
