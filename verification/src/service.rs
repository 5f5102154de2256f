//! Service credentials: what the game backend may do, and only that.
//!
//! A service is a key with a fixed set of scopes and nothing else: weaker
//! than the operator's key, and never a requirement of its own. The registry
//! holds digests, so it is no list of live credentials, and revoking one is a
//! tombstone rather than a delete: a key that was taken away is refused as
//! revoked rather than as unknown.

use vstd::prelude::*;

use crate::auth::{key_digest, key_digest_text};
use crate::table::{in_order, Key, Table};
use crate::text::{chars_of, control, is_control, quoted, quoted_text, same_text, trim, trimmed};

verus! {

/// The longest name a service may be given.
pub const MAX_NAME: usize = 64;

/// A service's id, dense and increasing from 1.
#[derive(Clone, Copy, Debug, PartialEq, Eq, PartialOrd, Ord, Hash, Structural)]
pub struct ServiceId(pub u64);

/// One thing a service credential may do.
#[derive(Clone, Copy, Debug, PartialEq, Eq, PartialOrd, Ord, Hash, Structural)]
pub enum Scope {
    /// Map an external player onto a user, an account and a trader.
    Provision,
    /// Pay a configured reward out of a budget wallet.
    Reward,
    /// Issue and destroy units of a good.
    Inventory,
    /// Push a game event from the catalogue at the world.
    Events,
}

impl Scope {
    /// Every scope, in the order they are listed.
    pub const ALL: [Scope; 4] = [Scope::Provision, Scope::Reward, Scope::Inventory, Scope::Events];

    /// The name of the scope on the wire.
    pub open spec fn name(self) -> Seq<char> {
        match self {
            Scope::Provision => "provision"@,
            Scope::Reward => "reward"@,
            Scope::Inventory => "inventory"@,
            Scope::Events => "events"@,
        }
    }

    /// How the scope is spelled on the wire.
    pub fn as_str(self) -> (name: &'static str)
        ensures
            name@ == self.name(),
    {
        match self {
            Scope::Provision => "provision",
            Scope::Reward => "reward",
            Scope::Inventory => "inventory",
            Scope::Events => "events",
        }
    }

    /// The bit this scope occupies in a [`ScopeSet`].
    pub open spec fn mask(self) -> u8 {
        match self {
            Scope::Provision => 1,
            Scope::Reward => 2,
            Scope::Inventory => 4,
            Scope::Events => 8,
        }
    }

    /// The bit this scope occupies in a [`ScopeSet`].
    fn bit(self) -> (b: u8)
        ensures
            b == self.mask(),
    {
        match self {
            Scope::Provision => 1,
            Scope::Reward => 2,
            Scope::Inventory => 4,
            Scope::Events => 8,
        }
    }

    /// The scope a name spells.
    pub fn named(s: &str) -> (r: Result<Scope, UnknownScope>)
        ensures
            match r {
                Ok(scope) => scope.name() == s@,
                Err(e) => e.0@ == s@ && forall|scope: Scope| #[trigger] scope.name() != s@,
            },
    {
        if same_text(s, "provision") {
            Ok(Scope::Provision)
        } else if same_text(s, "reward") {
            Ok(Scope::Reward)
        } else if same_text(s, "inventory") {
            Ok(Scope::Inventory)
        } else if same_text(s, "events") {
            Ok(Scope::Events)
        } else {
            Err(UnknownScope(s.to_owned()))
        }
    }
}

impl std::str::FromStr for Scope {
    type Err = UnknownScope;

    fn from_str(s: &str) -> (r: Result<Self, Self::Err>)
        ensures
            match r {
                Ok(scope) => scope.name() == s@,
                Err(e) => e.0@ == s@ && forall|scope: Scope| #[trigger] scope.name() != s@,
            },
    {
        Scope::named(s)
    }
}

/// A scope name this server does not have.
#[derive(Clone, Debug, PartialEq, Eq)]
pub struct UnknownScope(pub String);

impl UnknownScope {
    /// What is said of an unknown scope: its name, and the names there are.
    pub fn message(&self) -> (text: String)
        ensures
            text@ == "no such scope: "@ + quoted_text(self.0@) + " (this server has "@ + Scope::Provision.name() + ", "@
                + Scope::Reward.name() + ", "@ + Scope::Inventory.name() + ", "@ + Scope::Events.name() + ")"@,
    {
        let mut text = "no such scope: ".to_owned();
        text.append(quoted(self.0.as_str()).as_str());
        text.append(" (this server has ");
        text.append(Scope::Provision.as_str());
        text.append(", ");
        text.append(Scope::Reward.as_str());
        text.append(", ");
        text.append(Scope::Inventory.as_str());
        text.append(", ");
        text.append(Scope::Events.as_str());
        text.append(")");
        text
    }
}

/// The scopes one credential carries: one bit each.
#[derive(Clone, Copy, Debug, PartialEq, Eq, PartialOrd, Ord, Structural)]
pub struct ScopeSet(u8);

impl ScopeSet {
    /// The set carries `scope`.
    pub closed spec fn has(self, scope: Scope) -> bool {
        self.0 & scope.mask() != 0
    }

    /// No bit is set but those of the scopes.
    pub closed spec fn wf(self) -> bool {
        self.0 < 16
    }

    /// The scopes the set carries, in the order they are listed.
    pub open spec fn held(self) -> Seq<Scope> {
        Seq::empty() + self.held_of(Scope::Provision) + self.held_of(Scope::Reward) + self.held_of(Scope::Inventory)
            + self.held_of(Scope::Events)
    }

    /// `scope` alone, if the set carries it.
    pub open spec fn held_of(self, scope: Scope) -> Seq<Scope> {
        if self.has(scope) {
            seq![scope]
        } else {
            Seq::empty()
        }
    }

    /// The set is `before` with `scope` added.
    pub open spec fn with_added(self, before: ScopeSet, scope: Scope) -> bool {
        &&& self.wf()
        &&& forall|other: Scope| #[trigger] self.has(other) == (before.has(other) || other == scope)
    }

    /// The set holds the scopes of a list and no others.
    pub open spec fn is_of(self, scopes: Seq<Scope>) -> bool {
        &&& self.wf()
        &&& forall|scope: Scope| #[trigger] self.has(scope) == scopes.contains(scope)
    }

    /// The empty set: a credential that may do nothing.
    pub fn none() -> (set: Self)
        ensures
            set.wf(),
            forall|scope: Scope| !#[trigger] set.has(scope),
    {
        proof {
            assert(forall|m: u8| #[trigger] (0u8 & m) == 0u8) by (bit_vector);
        }
        ScopeSet(0)
    }

    /// Every scope at once.
    pub fn all() -> (set: Self)
        ensures
            set.wf(),
            forall|scope: Scope| #[trigger] set.has(scope),
    {
        let mut set = ScopeSet::none();
        set.insert(Scope::Provision);
        set.insert(Scope::Reward);
        set.insert(Scope::Inventory);
        set.insert(Scope::Events);
        set
    }

    /// Add `scope`.
    pub fn insert(&mut self, scope: Scope)
        requires
            old(self).wf(),
        ensures
            final(self).with_added(*old(self), scope),
    {
        let bits: u8 = self.0;
        let bit: u8 = scope.bit();
        self.0 = bits | bit;
        proof {
            let joined = bits | bit;
            assert(joined < 16) by (bit_vector)
                requires
                    bits < 16,
                    bit < 16,
                    joined == bits | bit,
            ;
            assert forall|other: Scope| #[trigger] self.has(other) == (old(self).has(other) || other == scope) by {
                let m = other.mask();
                assert((joined & m != 0) == ((bits & m != 0) || m == bit)) by (bit_vector)
                    requires
                        joined == bits | bit,
                        m == 1 || m == 2 || m == 4 || m == 8,
                        bit == 1 || bit == 2 || bit == 4 || bit == 8,
                ;
            }
        }
    }

    /// Whether this credential carries `scope`.
    pub fn contains(self, scope: Scope) -> (r: bool)
        ensures
            r == self.has(scope),
    {
        self.0 & scope.bit() != 0
    }

    /// Whether it carries nothing at all.
    pub fn is_empty(self) -> (r: bool)
        requires
            self.wf(),
        ensures
            r == (self.held().len() == 0),
            r == forall|scope: Scope| !#[trigger] self.has(scope),
    {
        let bits: u8 = self.0;
        proof {
            assert(bits == 0 <==> (bits & 1 == 0 && bits & 2 == 0 && bits & 4 == 0 && bits & 8 == 0)) by (bit_vector)
                requires
                    bits < 16,
            ;
            assert(self.has(Scope::Provision) == (bits & 1 != 0));
            assert(self.has(Scope::Reward) == (bits & 2 != 0));
            assert(self.has(Scope::Inventory) == (bits & 4 != 0));
            assert(self.has(Scope::Events) == (bits & 8 != 0));
            assert forall|scope: Scope| bits == 0 implies !#[trigger] self.has(scope) by {
                let m = scope.mask();
                assert(0u8 & m == 0) by (bit_vector);
            }
        }
        bits == 0
    }

    /// How many scopes it carries.
    pub fn len(self) -> (n: u32)
        ensures
            n == self.held().len(),
    {
        let mut n: u32 = 0;
        if self.contains(Scope::Provision) {
            n = n + 1;
        }
        if self.contains(Scope::Reward) {
            n = n + 1;
        }
        if self.contains(Scope::Inventory) {
            n = n + 1;
        }
        if self.contains(Scope::Events) {
            n = n + 1;
        }
        n
    }

    /// The scopes it carries, in [`Scope::ALL`] order.
    pub fn iter(self) -> (scopes: Vec<Scope>)
        ensures
            scopes@ == self.held(),
    {
        let mut scopes: Vec<Scope> = Vec::new();
        if self.contains(Scope::Provision) {
            scopes.push(Scope::Provision);
        }
        if self.contains(Scope::Reward) {
            scopes.push(Scope::Reward);
        }
        if self.contains(Scope::Inventory) {
            scopes.push(Scope::Inventory);
        }
        if self.contains(Scope::Events) {
            scopes.push(Scope::Events);
        }
        proof {
            assert(scopes@ =~= self.held());
        }
        scopes
    }

    /// The set of the given scopes.
    pub fn of(scopes: &Vec<Scope>) -> (set: Self)
        ensures
            set.is_of(scopes@),
    {
        let mut set = ScopeSet::none();
        let mut i: usize = 0;
        while i < scopes.len()
            invariant
                i <= scopes.len(),
                set.wf(),
                forall|scope: Scope| #[trigger] set.has(scope) == scopes@.take(i as int).contains(scope),
            decreases scopes.len() - i,
        {
            let ghost before = set;
            set.insert(scopes[i]);
            proof {
                let shorter = scopes@.take(i as int);
                let longer = scopes@.take(i as int + 1);
                assert(longer =~= shorter.push(scopes@[i as int]));
                assert forall|scope: Scope| #[trigger] set.has(scope) == longer.contains(scope) by {
                    assert(before.has(scope) == shorter.contains(scope));
                    if shorter.contains(scope) {
                        let k = shorter.index_of(scope);
                        assert(longer[k] == scope);
                    }
                    if scope == scopes@[i as int] {
                        assert(longer[i as int] == scope);
                    }
                    if longer.contains(scope) && scope != scopes@[i as int] {
                        let k = longer.index_of(scope);
                        assert(shorter[k] == scope);
                    }
                }
            }
            i = i + 1;
        }
        proof {
            assert(scopes@.take(scopes@.len() as int) =~= scopes@);
        }
        set
    }
}

impl Default for ScopeSet {
    fn default() -> (set: Self)
        ensures
            set.wf(),
            forall|scope: Scope| !#[trigger] set.has(scope),
    {
        ScopeSet::none()
    }
}

/// A credential the game backend speaks with, and the scopes it carries.
///
/// The key itself is not here, only the digest of it.
#[derive(Debug)]
pub struct Service {
    pub id: ServiceId,
    /// What it is for, so a list of them is readable by an operator.
    pub name: String,
    pub scopes: ScopeSet,
    /// The domain-separated SHA-256 of the key issued for it.
    pub digest: String,
    /// Set when the key was taken away. A revoked service is kept so that
    /// its id still resolves and its key is refused as revoked.
    pub revoked: bool,
    pub created_ms: i64,
    pub revoked_ms: Option<i64>,
}

impl Clone for Service {
    fn clone(&self) -> (copy: Self)
        ensures
            copy == *self,
    {
        Service {
            id: self.id,
            name: self.name.clone(),
            scopes: self.scopes,
            digest: self.digest.clone(),
            revoked: self.revoked,
            created_ms: self.created_ms,
            revoked_ms: self.revoked_ms,
        }
    }
}

impl Service {
    /// Whether this credential may act at `scope` right now.
    pub fn may(&self, scope: Scope) -> (r: bool)
        ensures
            r == (!self.revoked && self.scopes.has(scope)),
    {
        !self.revoked && self.scopes.contains(scope)
    }

    /// The service once its key has been taken away at `at_ms`; one that was
    /// already revoked stays as it is.
    pub open spec fn revoked_at(self, at_ms: i64) -> Service {
        if self.revoked {
            self
        } else {
            Service { revoked: true, revoked_ms: Some(at_ms), ..self }
        }
    }
}

/// What resolving a key against the registry found: enough to authorise a
/// request without borrowing from the published directory.
#[derive(Clone, Copy, Debug, PartialEq, Eq, Structural)]
pub struct ServiceAuth {
    pub id: ServiceId,
    pub scopes: ScopeSet,
    pub revoked: bool,
}

impl ServiceAuth {
    /// Whether this credential may act at `scope` right now.
    pub fn may(&self, scope: Scope) -> (r: bool)
        ensures
            r == (!self.revoked && self.scopes.has(scope)),
    {
        !self.revoked && self.scopes.contains(scope)
    }
}

/// The services by id, and which id each digest names.
#[verifier::ext_equal]
pub struct Registry {
    pub by_id: Map<u64, Service>,
    pub by_digest: Map<Seq<char>, u64>,
}

impl Registry {
    /// No services at all.
    pub open spec fn empty() -> Registry {
        Registry { by_id: Map::empty(), by_digest: Map::empty() }
    }

    /// The registry once `service` has been installed: it stands under its
    /// id, its digest names it, and the digest of the one it replaced names
    /// nobody.
    pub open spec fn put(self, service: Service) -> Registry {
        let kept = if self.by_id.contains_key(service.id.0) {
            self.by_digest.remove(self.by_id[service.id.0].digest@)
        } else {
            self.by_digest
        };
        Registry {
            by_id: self.by_id.insert(service.id.0, service),
            by_digest: kept.insert(service.digest@, service.id.0),
        }
    }

    /// The registry once every service has been installed, in order.
    pub open spec fn put_all(self, services: Seq<Service>) -> Registry
        decreases services.len(),
    {
        if services.len() == 0 {
            self
        } else {
            self.put_all(services.drop_last()).put(services.last())
        }
    }

    /// A service stands under its own id, and a digest that names one is that
    /// service's digest.
    pub open spec fn wf(self) -> bool {
        &&& forall|id: u64| #[trigger] self.by_id.contains_key(id) ==> self.by_id[id].id.0 == id
        &&& forall|digest: Seq<char>| #[trigger]
            self.by_digest.contains_key(digest) ==> self.by_id.contains_key(self.by_digest[digest])
                && self.by_id[self.by_digest[digest]].digest@ == digest
    }

    /// What a digest resolves to, revoked or not.
    pub open spec fn found(self, digest: Seq<char>) -> Option<ServiceAuth> {
        if self.by_digest.contains_key(digest) && self.by_id.contains_key(self.by_digest[digest]) {
            let id = self.by_digest[digest];
            Some(ServiceAuth { id: ServiceId(id), scopes: self.by_id[id].scopes, revoked: self.by_id[id].revoked })
        } else {
            None
        }
    }

    /// The registry once the service `id` has been revoked at `at_ms`, if
    /// there is one.
    pub open spec fn revoke(self, id: u64, at_ms: i64) -> Registry {
        if self.by_id.contains_key(id) {
            Registry { by_id: self.by_id.insert(id, self.by_id[id].revoked_at(at_ms)), by_digest: self.by_digest }
        } else {
            self
        }
    }

    /// Every service is the one its digest names, so no two share a digest and
    /// none is left unnamed.
    pub open spec fn digests_differ(self) -> bool {
        forall|id: u64| #[trigger]
            self.by_id.contains_key(id) ==> self.by_digest.contains_key(self.by_id[id].digest@)
                && self.by_digest[self.by_id[id].digest@] == id
    }
}

/// Every service credential the world has issued, live and revoked.
pub struct Services {
    by_id: Table<u64, Service>,
    by_digest: Table<String, u64>,
}

impl Services {
    /// The registry.
    pub closed spec fn registry(&self) -> Registry {
        Registry { by_id: self.by_id.map(), by_digest: self.by_digest.map() }
    }

    /// The services, in the order of their ids.
    pub closed spec fn listed(&self) -> Seq<Service> {
        self.by_id.vals()
    }

    /// The registry is in order.
    pub closed spec fn wf(&self) -> bool {
        &&& self.by_id.wf()
        &&& self.by_digest.wf()
        &&& self.registry().wf()
    }

    /// A registry in order is one whose services are.
    pub proof fn lemma_wf(&self)
        requires
            self.wf(),
        ensures
            self.registry().wf(),
    {
    }

    /// Add `service`, replacing any earlier one with its id.
    pub fn install(&mut self, service: Service)
        requires
            old(self).wf(),
        ensures
            final(self).wf(),
            final(self).registry() == old(self).registry().put(service),
    {
        let ghost before = *self;
        let id: u64 = service.id.0;
        let digest = service.digest.clone();
        match self.by_id.insert(id, service) {
            Some(earlier) => {
                self.by_digest.remove(&earlier.digest);
            },
            None => {},
        }
        self.by_digest.insert(digest, id);
        proof {
            assert(self.registry() =~= before.registry().put(service));
            lemma_put_keeps_order(before.registry(), service);
        }
    }

    /// The service `key` speaks for, revoked or not.
    ///
    /// A revoked key still resolves, so the caller can be told its key was
    /// taken away rather than that it never existed.
    pub fn resolve(&self, key: &str) -> (r: Option<ServiceAuth>)
        requires
            self.wf(),
        ensures
            r == self.registry().found(key_digest_text(key@)),
    {
        match self.by_digest.get(&key_digest(key)) {
            None => None,
            Some(id) => match self.by_id.get(id) {
                None => None,
                Some(service) => Some(
                    ServiceAuth { id: ServiceId(*id), scopes: service.scopes, revoked: service.revoked },
                ),
            },
        }
    }

    /// The service with this id.
    pub fn get(&self, id: ServiceId) -> (r: Option<&Service>)
        requires
            self.wf(),
        ensures
            match r {
                Some(service) => self.registry().by_id.contains_key(id.0) && *service == self.registry().by_id[id.0],
                None => !self.registry().by_id.contains_key(id.0),
            },
    {
        self.by_id.get(&id.0)
    }

    /// Take a service's key away. Returns whether there was one to revoke;
    /// revoking a revoked service changes nothing and is not an error.
    pub fn revoke(&mut self, id: ServiceId, at_ms: i64) -> (r: bool)
        requires
            old(self).wf(),
        ensures
            final(self).wf(),
            r == old(self).registry().by_id.contains_key(id.0),
            final(self).registry() == old(self).registry().revoke(id.0, at_ms),
    {
        let ghost before = *self;
        match self.by_id.remove(&id.0) {
            None => {
                proof {
                    assert(self.registry() =~= before.registry());
                }
                false
            },
            Some(mut service) => {
                if !service.revoked {
                    service.revoked = true;
                    service.revoked_ms = Some(at_ms);
                }
                self.by_id.insert(id.0, service);
                proof {
                    assert(self.registry().by_id =~= before.registry().by_id.insert(id.0, service));
                }
                true
            },
        }
    }

    /// Every service, by id.
    pub fn iter(&self) -> (services: Vec<&Service>)
        requires
            self.wf(),
        ensures
            services@.len() == self.listed().len(),
            forall|i: int| 0 <= i < services@.len() ==> *#[trigger] services@[i] == self.listed()[i],
    {
        let mut services: Vec<&Service> = Vec::new();
        let n: usize = self.by_id.len();
        let mut i: usize = 0;
        while i < n
            invariant
                self.wf(),
                n == self.listed().len(),
                i <= n,
                services@.len() == i,
                forall|j: int| 0 <= j < i ==> *#[trigger] services@[j] == self.listed()[j],
            decreases n - i,
        {
            services.push(self.by_id.val_at(i));
            i = i + 1;
        }
        services
    }

    /// How many have been issued, revoked ones included.
    pub fn len(&self) -> (n: usize)
        requires
            self.wf(),
        ensures
            n == self.registry().by_id.len(),
            n == self.listed().len(),
    {
        self.by_id.len()
    }

    /// No service has been issued.
    pub fn is_empty(&self) -> (r: bool)
        requires
            self.wf(),
        ensures
            r == (self.registry().by_id.len() == 0),
    {
        self.by_id.len() == 0
    }

    /// Every service, for a save file.
    pub fn to_saved(&self) -> (saved: Vec<Service>)
        requires
            self.wf(),
        ensures
            saved@ == self.listed(),
    {
        let mut saved: Vec<Service> = Vec::new();
        let n: usize = self.by_id.len();
        let mut i: usize = 0;
        while i < n
            invariant
                self.wf(),
                n == self.listed().len(),
                i <= n,
                saved@ == self.listed().take(i as int),
            decreases n - i,
        {
            saved.push(self.by_id.val_at(i).clone());
            proof {
                assert(self.listed().take(i as int + 1) =~= self.listed().take(i as int).push(
                    self.listed()[i as int],
                ));
            }
            i = i + 1;
        }
        proof {
            assert(self.listed().take(n as int) =~= self.listed());
        }
        saved
    }

    /// Rebuild from what [`Services::to_saved`] wrote down.
    pub fn from_saved(saved: Vec<Service>) -> (services: Self)
        ensures
            services.wf(),
            services.registry() == Registry::empty().put_all(saved@),
    {
        let mut services = Services::default();
        let mut i: usize = 0;
        while i < saved.len()
            invariant
                i <= saved.len(),
                services.wf(),
                services.registry() == Registry::empty().put_all(saved@.take(i as int)),
            decreases saved.len() - i,
        {
            services.install(saved[i].clone());
            proof {
                let longer = saved@.take(i as int + 1);
                assert(longer.drop_last() =~= saved@.take(i as int));
                assert(longer.last() == saved@[i as int]);
            }
            i = i + 1;
        }
        proof {
            assert(saved@.take(saved@.len() as int) =~= saved@);
        }
        services
    }
}

impl Default for Services {
    fn default() -> (services: Self)
        ensures
            services.wf(),
            services.registry() == Registry::empty(),
    {
        let services = Services { by_id: Table::new(), by_digest: Table::new() };
        proof {
            assert(services.registry() =~= Registry::empty());
        }
        services
    }
}

/// What an operator is shown of a service.
///
/// The digest is not in here: nothing outside the server has any use for it.
#[derive(Clone, Debug)]
pub struct ServiceDto {
    pub id: u64,
    pub name: String,
    pub scopes: ScopeSet,
    pub revoked: bool,
    pub created_ms: i64,
    pub revoked_ms: Option<i64>,
    /// The key this service speaks with, shown **once**: in the response
    /// that issued it, and `None` everywhere after.
    pub api_key: Option<String>,
}

impl ServiceDto {
    /// What is shown of `service`: all but its digest, and no key.
    pub fn of(service: &Service) -> (dto: ServiceDto)
        ensures
            dto == (ServiceDto {
                id: service.id.0,
                name: service.name,
                scopes: service.scopes,
                revoked: service.revoked,
                created_ms: service.created_ms,
                revoked_ms: service.revoked_ms,
                api_key: None,
            }),
    {
        ServiceDto {
            id: service.id.0,
            name: service.name.clone(),
            scopes: service.scopes,
            revoked: service.revoked,
            created_ms: service.created_ms,
            revoked_ms: service.revoked_ms,
            api_key: None,
        }
    }
}

/// Every service, as an operator is shown them.
#[derive(Clone, Debug)]
pub struct ServicesResponse {
    pub services: Vec<ServiceDto>,
}

/// Why a service could not be issued.
#[derive(Clone, Debug, PartialEq, Eq)]
pub enum ServiceError {
    /// The name is empty or longer than [`MAX_NAME`].
    Name(String),
    /// A credential that may do nothing is a mistake, not a credential.
    NoScopes,
}

impl ServiceError {
    /// The refusal in words.
    pub fn message(&self) -> (text: String)
        ensures
            text@ == (match *self {
                ServiceError::Name(why) => "a service name "@ + why@,
                ServiceError::NoScopes =>
                    "a service needs at least one scope: it could do nothing without one"@,
            }),
    {
        match self {
            ServiceError::Name(why) => {
                let mut text = "a service name ".to_owned();
                text.append(why.as_str());
                text
            },
            ServiceError::NoScopes => {
                "a service needs at least one scope: it could do nothing without one".to_owned()
            },
        }
    }
}

/// Why `name`, once trimmed, cannot be a service's name; `None` where it can.
pub open spec fn name_fault(name: Seq<char>) -> Option<Seq<char>> {
    if name.len() == 0 {
        Some("cannot be empty"@)
    } else if name.len() > MAX_NAME {
        Some("is longer than 64 characters"@)
    } else if exists|i: int| 0 <= i < name.len() && is_control(#[trigger] name[i]) {
        Some("cannot hold control characters"@)
    } else {
        None
    }
}

/// Clean a name for a service, or say why it is not one.
pub fn clean_name(name: &str) -> (r: Result<String, ServiceError>)
    ensures
        match r {
            Ok(clean) => name_fault(trimmed(name@)) is None && clean@ == trimmed(name@),
            Err(e) => e matches ServiceError::Name(why) && name_fault(trimmed(name@)) == Some(why@),
        },
{
    let clean = trim(name);
    let chars = chars_of(clean.as_str());
    if chars.len() == 0 {
        return Err(ServiceError::Name("cannot be empty".to_owned()));
    }
    if chars.len() > MAX_NAME {
        return Err(ServiceError::Name("is longer than 64 characters".to_owned()));
    }
    let mut i: usize = 0;
    while i < chars.len()
        invariant
            i <= chars.len(),
            chars@ == clean@,
            clean@ == trimmed(name@),
            0 < chars.len() <= MAX_NAME,
            forall|j: int| 0 <= j < i ==> !is_control(#[trigger] clean@[j]),
        decreases chars.len() - i,
    {
        if control(chars[i]) {
            assert(is_control(clean@[i as int]));
            return Err(ServiceError::Name("cannot hold control characters".to_owned()));
        }
        i = i + 1;
    }
    Ok(clean)
}

// ---------------------------------------------------------------------------
// Laws

/// Installing a service in a registry in order leaves it in order.
pub proof fn lemma_put_keeps_order(registry: Registry, service: Service)
    requires
        registry.wf(),
    ensures
        registry.put(service).wf(),
{
    let after = registry.put(service);
    let id = service.id.0;
    assert forall|digest: Seq<char>| #[trigger] after.by_digest.contains_key(digest) implies after.by_id.contains_key(
        after.by_digest[digest],
    ) && after.by_id[after.by_digest[digest]].digest@ == digest by {
        if digest != service.digest@ {
            assert(registry.by_digest.contains_key(digest));
            if after.by_digest[digest] == id {
                assert(registry.by_id[id].digest@ == digest);
            }
        }
    }
}

/// A service that was installed is what its digest resolves to.
pub proof fn law_installed_service_resolves(registry: Registry, service: Service)
    ensures
        registry.put(service).found(service.digest@) == Some(
            ServiceAuth { id: service.id, scopes: service.scopes, revoked: service.revoked },
        ),
{
}

/// A revoked key still resolves, to the same service, but may nothing at any
/// scope.
pub proof fn law_revoked_key_resolves_and_may_nothing(registry: Registry, digest: Seq<char>, at_ms: i64)
    requires
        registry.found(digest) is Some,
    ensures
        ({
            let auth = registry.found(digest)->0;
            registry.revoke(auth.id.0, at_ms).found(digest) == Some(ServiceAuth { revoked: true, ..auth })
        }),
{
}

/// Revoking twice is not an error and changes nothing: when it happened does
/// not move.
pub proof fn law_revoking_twice_changes_nothing(registry: Registry, id: u64, at_ms: i64, later_ms: i64)
    ensures
        registry.revoke(id, at_ms).revoke(id, later_ms) == registry.revoke(id, at_ms),
{
    assert(registry.revoke(id, at_ms).revoke(id, later_ms) =~= registry.revoke(id, at_ms));
}

/// A set is the scopes it carries: two that carry the same are one.
pub proof fn law_the_same_scopes_are_the_same_set(a: ScopeSet, b: ScopeSet)
    requires
        a.wf(),
        b.wf(),
        forall|scope: Scope| #[trigger] a.has(scope) == b.has(scope),
    ensures
        a == b,
{
    let (x, y) = (a.0, b.0);
    assert(a.has(Scope::Provision) == b.has(Scope::Provision));
    assert(a.has(Scope::Reward) == b.has(Scope::Reward));
    assert(a.has(Scope::Inventory) == b.has(Scope::Inventory));
    assert(a.has(Scope::Events) == b.has(Scope::Events));
    assert(x == y) by (bit_vector)
        requires
            x < 16,
            y < 16,
            (x & 1 != 0) == (y & 1 != 0),
            (x & 2 != 0) == (y & 2 != 0),
            (x & 4 != 0) == (y & 4 != 0),
            (x & 8 != 0) == (y & 8 != 0),
    ;
}

/// Adding a scope a set carries leaves it the set it was.
pub proof fn law_adding_a_scope_again_changes_nothing(before: ScopeSet, after: ScopeSet, scope: Scope)
    requires
        before.wf(),
        before.has(scope),
        after.with_added(before, scope),
    ensures
        after == before,
{
    law_the_same_scopes_are_the_same_set(after, before);
}

/// The order in which scopes are added does not matter to the set.
pub proof fn law_the_order_of_adding_does_not_matter(
    before: ScopeSet,
    first: Scope,
    second: Scope,
    one: ScopeSet,
    one_then: ScopeSet,
    other: ScopeSet,
    other_then: ScopeSet,
)
    requires
        one.with_added(before, first),
        one_then.with_added(one, second),
        other.with_added(before, second),
        other_then.with_added(other, first),
    ensures
        one_then == other_then,
{
    law_the_same_scopes_are_the_same_set(one_then, other_then);
}

/// A set is the set of the scopes it lists.
pub proof fn law_a_set_is_that_of_its_list(set: ScopeSet, back: ScopeSet)
    requires
        set.wf(),
        back.is_of(set.held()),
    ensures
        back == set,
{
    let held = set.held();
    assert forall|scope: Scope| #[trigger] back.has(scope) == set.has(scope) by {
        lemma_held(set, scope);
    }
    law_the_same_scopes_are_the_same_set(back, set);
}

/// A set lists a scope exactly where it carries it.
proof fn lemma_held(set: ScopeSet, scope: Scope)
    ensures
        set.held().contains(scope) == set.has(scope),
{
    let a = set.held_of(Scope::Provision);
    let b = set.held_of(Scope::Reward);
    let c = set.held_of(Scope::Inventory);
    let d = set.held_of(Scope::Events);
    assert(set.held() =~= a + b + c + d);
    if set.has(scope) {
        let at = match scope {
            Scope::Provision => 0,
            Scope::Reward => a.len() as int,
            Scope::Inventory => (a + b).len() as int,
            Scope::Events => (a + b + c).len() as int,
        };
        assert(set.held()[at] == scope);
    }
}

/// The services are listed by their ids: ascending, each once, and none left
/// out. The registry settles the list.
pub proof fn law_services_are_listed_by_id(services: &Services)
    requires
        services.wf(),
    ensures
        services.listed() == in_order(services.registry().by_id),
        services.listed().len() == services.registry().by_id.len(),
        forall|i: int, j: int|
            0 <= i < j < services.listed().len() ==> (#[trigger] services.listed()[i]).id.0 < (
            #[trigger] services.listed()[j]).id.0,
        forall|i: int|
            0 <= i < services.listed().len() ==> services.registry().by_id.contains_key(
                (#[trigger] services.listed()[i]).id.0,
            ) && services.registry().by_id[services.listed()[i].id.0] == services.listed()[i],
        forall|id: u64| #[trigger]
            services.registry().by_id.contains_key(id) ==> services.listed().contains(services.registry().by_id[id]),
{
    let table = &services.by_id;
    table.lemma_in_order();
    table.lemma_listed();
    assert forall|i: int| 0 <= i < services.listed().len() implies services.registry().by_id.contains_key(
        (#[trigger] services.listed()[i]).id.0,
    ) && services.registry().by_id[services.listed()[i].id.0] == services.listed()[i] && services.listed()[i].id.0
        == table.keys()[i] by {
        table.lemma_at(i);
        assert(services.registry().by_id.contains_key(table.keys()[i]));
    }
    assert forall|i: int, j: int| 0 <= i < j < services.listed().len() implies (#[trigger] services.listed()[i]).id.0 < (
    #[trigger] services.listed()[j]).id.0 by {
        assert(u64::before(table.keys()[i], table.keys()[j]));
    }
    assert forall|id: u64| #[trigger] services.registry().by_id.contains_key(id) implies services.listed().contains(
        services.registry().by_id[id],
    ) by {
        table.lemma_placed(id);
        assert(services.listed()[table.place(id)] == services.registry().by_id[id]);
    }
}

/// A registry rebuilt from a save writes the same save down again, and, where
/// no two services share a digest, every key resolves to what it did.
pub proof fn law_rebuilt_services_are_those_written_down(services: &Services, back: &Services, digest: Seq<char>)
    requires
        services.wf(),
        back.wf(),
        back.registry() == Registry::empty().put_all(services.listed()),
    ensures
        back.listed() == services.listed(),
        back.registry().by_id == services.registry().by_id,
        services.registry().digests_differ() ==> back.registry().found(digest) == services.registry().found(digest),
{
    law_services_round_trip_through_a_save(*services);
    law_services_are_listed_by_id(services);
    law_services_are_listed_by_id(back);
}

/// Services come back from what a save holds: the same services under the
/// same ids, and, where no two share a digest, the same digests naming them.
pub proof fn law_services_round_trip_through_a_save(services: Services)
    requires
        services.wf(),
    ensures
        Registry::empty().put_all(services.listed()).by_id == services.registry().by_id,
        services.registry().digests_differ() ==> Registry::empty().put_all(services.listed()).by_digest
            == services.registry().by_digest,
{
    let listed = services.listed();
    let registry = services.registry();
    lemma_put_all(services, listed.len() as int);
    assert(listed.take(listed.len() as int) =~= listed);
    let back = Registry::empty().put_all(listed);
    assert forall|id: u64| back.by_id.contains_key(id) <==> #[trigger] registry.by_id.contains_key(id) by {
        if registry.by_id.contains_key(id) {
            services.by_id.lemma_placed(id);
            let i = services.by_id.place(id);
            assert(listed[i].id.0 == id);
        }
        if back.by_id.contains_key(id) {
            let i = choose|i: int| 0 <= i < listed.len() && (#[trigger] listed[i]).id.0 == id;
            services.by_id.lemma_at(i);
        }
    }
    assert forall|id: u64| #[trigger] back.by_id.contains_key(id) implies back.by_id[id] == registry.by_id[id] by {
        let i = choose|i: int| 0 <= i < listed.len() && (#[trigger] listed[i]).id.0 == id;
        services.by_id.lemma_at(i);
    }
    assert(back.by_id =~= registry.by_id);
    if registry.digests_differ() {
        assert forall|d: Seq<char>| back.by_digest.contains_key(d) <==> #[trigger] registry.by_digest.contains_key(
            d,
        ) by {
            if registry.by_digest.contains_key(d) {
                let id = registry.by_digest[d];
                services.by_id.lemma_placed(id);
                let i = services.by_id.place(id);
                assert(listed[i].digest@ == d);
            }
            if back.by_digest.contains_key(d) {
                let i = choose|i: int| 0 <= i < listed.len() && (#[trigger] listed[i]).digest@ == d;
                services.by_id.lemma_at(i);
            }
        }
        assert forall|d: Seq<char>| #[trigger] back.by_digest.contains_key(d) implies back.by_digest[d]
            == registry.by_digest[d] by {
            let i = choose|i: int| 0 <= i < listed.len() && (#[trigger] listed[i]).digest@ == d;
            services.by_id.lemma_at(i);
        }
        assert(back.by_digest =~= registry.by_digest);
    }
}

proof fn lemma_put_all(services: Services, n: int)
    requires
        services.wf(),
        0 <= n <= services.listed().len(),
    ensures
        ({
            let listed = services.listed();
            let back = Registry::empty().put_all(listed.take(n));
            &&& forall|id: u64| #[trigger]
                back.by_id.contains_key(id) ==> exists|i: int| 0 <= i < n && (#[trigger] listed[i]).id.0 == id
            &&& forall|i: int|
                0 <= i < n ==> back.by_id.contains_key((#[trigger] listed[i]).id.0) && back.by_id[listed[i].id.0]
                    == listed[i]
            &&& forall|d: Seq<char>| #[trigger]
                back.by_digest.contains_key(d) ==> exists|i: int|
                    0 <= i < n && (#[trigger] listed[i]).digest@ == d
            &&& services.registry().digests_differ() ==> forall|i: int|
                0 <= i < n ==> back.by_digest.contains_key((#[trigger] listed[i]).digest@)
                    && back.by_digest[listed[i].digest@] == listed[i].id.0
        }),
    decreases n,
{
    let listed = services.listed();
    let registry = services.registry();
    if n > 0 {
        lemma_put_all(services, n - 1);
        assert(listed.take(n).drop_last() =~= listed.take(n - 1));
        let service = listed[n - 1];
        assert(listed.take(n).last() == service);
        let before = Registry::empty().put_all(listed.take(n - 1));
        let back = Registry::empty().put_all(listed.take(n));
        assert(back == before.put(service));
        services.by_id.lemma_at(n - 1);
        if before.by_id.contains_key(service.id.0) {
            let i = choose|i: int| 0 <= i < n - 1 && (#[trigger] listed[i]).id.0 == service.id.0;
            services.by_id.lemma_at(i);
            services.by_id.lemma_distinct(i, n - 1);
        }
        assert forall|i: int| 0 <= i < n implies back.by_id.contains_key((#[trigger] listed[i]).id.0)
            && back.by_id[listed[i].id.0] == listed[i] by {
            services.by_id.lemma_at(i);
            if i < n - 1 && listed[i].id.0 == service.id.0 {
                services.by_id.lemma_distinct(i, n - 1);
            }
        }
        assert forall|id: u64| #[trigger] back.by_id.contains_key(id) implies exists|i: int|
            0 <= i < n && (#[trigger] listed[i]).id.0 == id by {
            if id == service.id.0 {
                assert(listed[n - 1].id.0 == id);
            } else {
                assert(before.by_id.contains_key(id));
                let i = choose|i: int| 0 <= i < n - 1 && (#[trigger] listed[i]).id.0 == id;
                assert(listed[i].id.0 == id);
            }
        }
        assert forall|d: Seq<char>| #[trigger] back.by_digest.contains_key(d) implies exists|i: int|
            0 <= i < n && (#[trigger] listed[i]).digest@ == d by {
            if d == service.digest@ {
                assert(listed[n - 1].digest@ == d);
            } else {
                assert(before.by_digest.contains_key(d));
                let i = choose|i: int| 0 <= i < n - 1 && (#[trigger] listed[i]).digest@ == d;
                assert(listed[i].digest@ == d);
            }
        }
        if registry.digests_differ() {
            assert forall|i: int| 0 <= i < n implies back.by_digest.contains_key((#[trigger] listed[i]).digest@)
                && back.by_digest[listed[i].digest@] == listed[i].id.0 by {
                services.by_id.lemma_at(i);
                assert(registry.by_id.contains_key(listed[i].id.0));
                assert(registry.by_id.contains_key(service.id.0));
                if i < n - 1 && listed[i].digest@ == service.digest@ {
                    services.by_id.lemma_distinct(i, n - 1);
                }
            }
        }
    }
}

/// A service may do what it was given the scope for, as long as it has not
/// been revoked; what it may do is the same by its record and by its key.
pub proof fn law_a_service_may_what_its_scopes_say(service: Service, auth: ServiceAuth, scope: Scope, a: bool, b: bool)
    requires
        auth.scopes == service.scopes,
        auth.revoked == service.revoked,
        call_ensures(Service::may, (&service, scope), a),
        call_ensures(ServiceAuth::may, (&auth, scope), b),
    ensures
        a <==> b,
        service.revoked ==> !a,
        !service.revoked ==> (a <==> service.scopes.has(scope)),
{
}

/// Revoking a service takes away its leave and stamps the instant, once;
/// everything else of it, and every other service, stays as it was.
pub proof fn law_revoking_touches_one_service(registry: Registry, id: u64, at_ms: i64, other: u64)
    requires
        registry.by_id.contains_key(id),
    ensures
        ({
            let before = registry.by_id[id];
            let after = registry.revoke(id, at_ms).by_id[id];
            &&& after.revoked
            &&& !before.revoked ==> after.revoked_ms == Some(at_ms)
            &&& before.revoked ==> after == before
            &&& after.id == before.id && after.name == before.name && after.digest == before.digest
                && after.scopes == before.scopes && after.created_ms == before.created_ms
        }),
        other != id ==> registry.revoke(id, at_ms).by_id.contains_key(other) == registry.by_id.contains_key(other)
            && registry.revoke(id, at_ms).by_id[other] == registry.by_id[other],
        registry.revoke(id, at_ms).by_digest == registry.by_digest,
{
}

/// The scopes of a set are listed each once, and no others.
pub proof fn law_a_sets_scopes_are_those_it_has(set: ScopeSet, scopes: Vec<Scope>, scope: Scope)
    requires
        call_ensures(ScopeSet::iter, (set,), scopes),
    ensures
        scopes@.contains(scope) <==> set.has(scope),
        scopes@.no_duplicates(),
        scopes@.len() <= 4,
{
    lemma_held(set, scope);
}

/// A service's name is what is left of it without the blanks around it: from
/// one to sixty-four characters, none of them a control character.
pub proof fn law_a_service_has_a_plain_name(name: &str, r: Result<String, ServiceError>)
    requires
        call_ensures(clean_name, (name,), r),
    ensures
        r is Ok <==> 1 <= trimmed(name@).len() <= 64 && forall|i: int|
            0 <= i < trimmed(name@).len() ==> !is_control(#[trigger] trimmed(name@)[i]),
        r matches Ok(clean) ==> clean@ == trimmed(name@),
{
}

/// A key is not shown with its service: only what may be known of it.
pub proof fn law_a_service_is_shown_without_its_key(service: Service, dto: ServiceDto)
    requires
        call_ensures(ServiceDto::of, (&service,), dto),
    ensures
        dto.api_key is None,
        dto.id == service.id.0,
        dto.scopes == service.scopes,
        dto.revoked == service.revoked,
        dto.revoked_ms == service.revoked_ms,
{
}

} // verus!
