//! API keys and the keyring.

use fehu_webapp::account::UserId;
use fehu_webapp::auth::{key_digest, key_drawn, key_from, Keyring, NoRandomness, KEY_BYTES, KEY_PREFIX};

#[test]
fn keys_are_unique_and_resolve_to_their_user() {
    let mut keys = Keyring::default();
    let one = keys.issue(UserId(1)).unwrap();
    let two = keys.issue(UserId(2)).unwrap();
    assert_ne!(one, two, "every key is its own");
    assert!(one.starts_with(KEY_PREFIX));
    assert_eq!(one.len(), KEY_PREFIX.len() + KEY_BYTES * 2);
    assert!(
        one[KEY_PREFIX.len()..].chars().all(|c| c.is_ascii_hexdigit()),
        "{one}"
    );
    assert_eq!(keys.user_of(&one), Some(UserId(1)));
    assert_eq!(keys.user_of(&two), Some(UserId(2)));
    assert_eq!(keys.user_of("fehu_nope"), None);
    assert_eq!(keys.take_issued_key(UserId(2)).unwrap(), two);
    assert_eq!(keys.len(), 2);
}

#[test]
fn a_keyring_round_trips_through_its_pairs() {
    let mut keys = Keyring::default();
    let one = keys.issue(UserId(1)).unwrap();
    let two = keys.issue(UserId(7)).unwrap();
    let mut back = Keyring::from_pairs(keys.pairs());
    assert_eq!(back.user_of(&one), Some(UserId(1)));
    assert_eq!(back.user_of(&two), Some(UserId(7)));
    assert_eq!(back.take_issued_key(UserId(7)), None);
    assert_eq!(back.len(), 2);
}

#[test]
fn credentials_are_handed_out_once_and_digests_are_not_credentials() {
    let mut keys = Keyring::default();
    let key = keys.issue(UserId(1)).unwrap();
    let pairs = keys.pairs();
    assert_ne!(pairs[0].0, key);
    assert!(pairs[0].0.starts_with("sha256:"));
    assert_eq!(keys.user_of(&pairs[0].0), None);
    assert!(!keys.debug_text().contains(&key));
    assert_eq!(keys.take_issued_key(UserId(1)), Some(key.clone()));
    assert_eq!(keys.take_issued_key(UserId(1)), None);
    assert_eq!(keys.user_of(&key), Some(UserId(1)));
    let mut restored = Keyring::from_pairs(pairs);
    let replacement = restored.issue(UserId(1)).unwrap();
    assert_eq!(restored.user_of(&key), None);
    assert_eq!(restored.user_of(&replacement), Some(UserId(1)));
    assert_eq!(restored.len(), 1);
}

#[test]
fn re_issuing_retires_the_old_key() {
    let mut keys = Keyring::default();
    let old = keys.issue(UserId(1)).unwrap();
    let new = keys.issue(UserId(1)).unwrap();
    assert_eq!(keys.user_of(&old), None, "the old key stops working");
    assert_eq!(keys.user_of(&new), Some(UserId(1)));
    assert_eq!(keys.len(), 1);
}

#[test]
fn a_digest_is_the_sha_256_of_the_domain_and_the_key() {
    // SHA-256 of the domain `fehu-api-key-v1`, a zero byte and the key.
    assert_eq!(
        key_digest("abc"),
        "sha256:c3e1ac06cc8a8cf1f8deeab6791234d7e91a1e3c414f700f66442fab7d5be91e"
    );
    assert_eq!(
        key_digest(""),
        "sha256:a07eee1535411b638d81975f81b3b80ff8b3ce9d4cc77b02c85300f1334d3ce2"
    );
}

#[test]
fn a_key_is_its_prefix_and_its_bytes_in_hex() {
    assert_eq!(key_from(&vec![0x00, 0x0f, 0xa0, 0xff]), "fehu_000fa0ff");
}

#[test]
fn a_key_installed_by_hand_speaks_for_its_user_alone() {
    let mut keys = Keyring::default();
    keys.install(UserId(1), "first".into());
    keys.install(UserId(2), "second".into());
    keys.install(UserId(1), "third".into());
    assert_eq!(keys.user_of("first"), None);
    assert_eq!(keys.user_of("second"), Some(UserId(2)));
    assert_eq!(keys.user_of("third"), Some(UserId(1)));
    assert!(!keys.is_empty());
    assert_eq!(keys.debug_text(), "Keyring { len: 2, .. }");
}

#[test]
fn a_draw_makes_a_key_or_changes_nothing() {
    assert_eq!(key_drawn(Ok(vec![0x0a, 0xff])).unwrap(), "fehu_0aff");
    assert_eq!(key_drawn(Err(getrandom::Error::UNSUPPORTED)), Err(NoRandomness));
    let mut keys = Keyring::default();
    assert_eq!(keys.issue_drawn(UserId(1), Ok("fehu_aa".into())).unwrap(), "fehu_aa");
    assert_eq!(keys.user_of("fehu_aa"), Some(UserId(1)));
    assert_eq!(keys.issue_drawn(UserId(1), Err(NoRandomness)), Err(NoRandomness));
    assert_eq!(keys.user_of("fehu_aa"), Some(UserId(1)), "the key they hold stays");
}

#[test]
fn pairs_are_listed_by_digest_and_come_back_in_that_order() {
    let mut keys = Keyring::default();
    for user in 1..=5 {
        keys.install(UserId(user), format!("key {user}"));
    }
    let pairs = keys.pairs();
    assert_eq!(pairs.len(), keys.len());
    assert!(pairs.windows(2).all(|w| w[0].0 < w[1].0));
    assert_eq!(keys.take_issued_key(UserId(3)), Some("key 3".into()));
    assert_eq!(keys.take_issued_key(UserId(3)), None);
    assert_eq!(keys.pairs(), pairs, "taking a key leaves the pairs as they were");
    assert_eq!(keys.take_issued_key(UserId(4)), Some("key 4".into()), "and the others theirs to take");
    let back = Keyring::from_pairs(pairs.clone());
    assert_eq!(back.pairs(), pairs);
    assert_eq!(back.user_of("key 2"), Some(UserId(2)));
}
