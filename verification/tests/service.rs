//! Services, their scopes and their credentials.

use std::str::FromStr;

use fehu_webapp::auth::{key_digest, new_api_key};
use fehu_webapp::service::{clean_name, Scope, ScopeSet, Service, ServiceDto, ServiceError, ServiceId, Services, MAX_NAME};

fn service(id: u64, scopes: ScopeSet, digest: String) -> Service {
    Service {
        id: ServiceId(id),
        name: format!("service {id}"),
        scopes,
        digest,
        revoked: false,
        created_ms: 0,
        revoked_ms: None,
    }
}

#[test]
fn a_scope_set_holds_what_was_put_in_it() {
    let mut set = ScopeSet::none();
    assert!(set.is_empty());
    set.insert(Scope::Reward);
    set.insert(Scope::Reward);
    assert_eq!(set.len(), 1, "a scope added twice is held once");
    assert!(set.contains(Scope::Reward));
    assert!(!set.contains(Scope::Events));
    set.insert(Scope::Events);
    assert_eq!(
        set.iter(),
        vec![Scope::Reward, Scope::Events],
        "iteration is in the order the scopes are declared"
    );
    assert_eq!(ScopeSet::all().len(), Scope::ALL.len() as u32);
}

#[test]
fn a_scope_set_round_trips_as_the_names_it_was_sent_as() {
    let set = ScopeSet::of(&vec![Scope::Events, Scope::Provision]);
    let names: Vec<&str> = set.iter().into_iter().map(|s| s.as_str()).collect();
    assert_eq!(names, ["provision", "events"]);
    let back: Vec<Scope> = names.iter().map(|n| Scope::named(n).unwrap()).collect();
    assert_eq!(ScopeSet::of(&back), set);
    assert_eq!(ScopeSet::of(&vec![]), ScopeSet::none());
    let bad = Scope::named("mint").unwrap_err().message();
    assert!(bad.contains("no such scope"), "{bad}");
    assert_eq!(Scope::from_str("inventory"), Ok(Scope::Inventory));
    assert!(Scope::from_str("Inventory").is_err());
}

#[test]
fn a_key_resolves_to_its_service_and_never_to_its_digest() {
    let key = new_api_key().unwrap();
    let mut services = Services::default();
    services.install(service(1, ScopeSet::all(), key_digest(&key)));
    let auth = services.resolve(&key).expect("the key is one of ours");
    assert_eq!(auth.id, ServiceId(1));
    assert!(auth.may(Scope::Reward));
    assert_eq!(services.resolve(&key_digest(&key)), None, "the digest is not itself a credential");
    assert_eq!(services.resolve(&new_api_key().unwrap()), None);
}

#[test]
fn a_scope_a_service_does_not_carry_is_not_open_to_it() {
    let key = new_api_key().unwrap();
    let mut services = Services::default();
    let scopes = ScopeSet::of(&vec![Scope::Reward]);
    services.install(service(1, scopes, key_digest(&key)));
    let auth = services.resolve(&key).unwrap();
    assert!(auth.may(Scope::Reward));
    assert!(!auth.may(Scope::Inventory));
    assert!(!auth.may(Scope::Provision));
    assert!(!auth.may(Scope::Events));
}

#[test]
fn a_revoked_key_still_resolves_but_may_nothing() {
    let key = new_api_key().unwrap();
    let mut services = Services::default();
    services.install(service(1, ScopeSet::all(), key_digest(&key)));
    assert!(services.revoke(ServiceId(1), 99));
    let auth = services.resolve(&key).expect("a revoked key still resolves");
    assert!(auth.revoked);
    assert!(!auth.may(Scope::Reward), "revoked is revoked for every scope");
    let held = services.get(ServiceId(1)).unwrap();
    assert_eq!(held.revoked_ms, Some(99));
    assert!(services.revoke(ServiceId(1), 200), "revoking twice is not an error");
    assert_eq!(
        services.get(ServiceId(1)).unwrap().revoked_ms,
        Some(99),
        "and does not move when it happened"
    );
    assert!(!services.revoke(ServiceId(7), 0), "there is no service 7");
}

#[test]
fn services_round_trip_through_what_a_save_holds() {
    let (one, two) = (new_api_key().unwrap(), new_api_key().unwrap());
    let mut services = Services::default();
    services.install(service(1, ScopeSet::all(), key_digest(&one)));
    services.install(service(2, ScopeSet::of(&vec![Scope::Events]), key_digest(&two)));
    services.revoke(ServiceId(2), 5);
    let saved = services.to_saved();
    assert!(!format!("{saved:?}").contains(&one), "a save holds digests, never keys");
    let back = Services::from_saved(saved);
    assert_eq!(back.len(), 2);
    assert!(back.resolve(&one).unwrap().may(Scope::Provision));
    assert!(back.resolve(&two).unwrap().revoked);
}

#[test]
fn a_name_is_cleaned_or_refused() {
    assert_eq!(clean_name("  quests  ").unwrap(), "quests");
    assert_eq!(
        clean_name("  ").unwrap_err(),
        ServiceError::Name("cannot be empty".into())
    );
    assert!(clean_name(&"x".repeat(MAX_NAME + 1)).is_err());
    assert!(clean_name("quest\nbot").is_err());
}

#[test]
fn a_service_is_shown_without_its_digest() {
    let mut s = service(3, ScopeSet::of(&vec![Scope::Events, Scope::Reward]), "sha256:aa".into());
    s.revoked = true;
    s.revoked_ms = Some(7);
    let dto = ServiceDto::of(&s);
    assert_eq!(dto.id, 3);
    assert_eq!(dto.revoked_ms, Some(7));
    assert!(!format!("{dto:?}").contains("sha256"));
}

#[test]
fn a_scope_set_is_the_scopes_it_carries() {
    let mut one = ScopeSet::none();
    one.insert(Scope::Events);
    one.insert(Scope::Provision);
    let mut other = ScopeSet::none();
    other.insert(Scope::Provision);
    other.insert(Scope::Events);
    assert_eq!(one, other, "in whatever order they were added");
    other.insert(Scope::Events);
    assert_eq!(one, other, "and however often");
    assert_eq!(ScopeSet::of(&one.iter()), one);
    assert_ne!(one, ScopeSet::all());
}

#[test]
fn saved_services_are_listed_by_id_and_come_back_the_same() {
    let mut services = Services::default();
    for id in [7, 2, 5] {
        services.install(service(id, ScopeSet::all(), format!("sha256:{id}")));
    }
    services.revoke(ServiceId(5), 40);
    let saved = services.to_saved();
    assert_eq!(saved.iter().map(|s| s.id.0).collect::<Vec<_>>(), vec![2, 5, 7]);
    assert_eq!(saved.len(), services.len());
    let back = Services::from_saved(saved.clone());
    let again = back.to_saved();
    let fields = |s: &Service| (s.id, s.name.clone(), s.scopes, s.digest.clone(), s.revoked, s.revoked_ms);
    assert_eq!(again.iter().map(fields).collect::<Vec<_>>(), saved.iter().map(fields).collect::<Vec<_>>());
}
