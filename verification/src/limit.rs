//! Rate limiting: who has an allowance of their own, and who shares one.
//!
//! Every user gets a bucket while there is room. Once the table is full, the
//! buckets that have refilled completely are swept, since one of those says
//! nothing a fresh one would not; a client there is still no room for shares
//! the bucket of requests with no key. That is stricter than an allowance of
//! its own, never looser. How a bucket fills and what it charges is reckoned
//! outside; here is which bucket a request is charged to.

use vstd::prelude::*;

use crate::account::UserId;
use crate::table::{lists_keys, Table};

verus! {

/// Buckets kept before the full ones are swept away.
pub const MAX_BUCKETS: usize = 10_000;

/// What a bucket said. A refusal carries how long the client should wait.
#[derive(Clone, Copy, Debug, PartialEq, Eq, Structural)]
pub enum Decision {
    Allowed,
    /// Refused; try again after this long, in nanoseconds.
    Limited { retry_after_nanos: u64 },
}

impl Decision {
    /// The whole seconds a refusal advises waiting: rounded up, and never
    /// zero, since a client that obeyed that would spin.
    pub fn retry_after_secs(self) -> (r: Option<u64>)
        ensures
            r == (match self {
                Decision::Allowed => None,
                Decision::Limited { retry_after_nanos } => Some(
                    if retry_after_nanos == 0 {
                        1u64
                    } else {
                        ((retry_after_nanos - 1) / 1_000_000_000 + 1) as u64
                    },
                ),
            }),
    {
        match self {
            Decision::Allowed => None,
            Decision::Limited { retry_after_nanos } => {
                if retry_after_nanos == 0 {
                    Some(1)
                } else {
                    Some((retry_after_nanos - 1) / 1_000_000_000 + 1)
                }
            },
        }
    }
}

/// The bucket a request is charged to.
#[derive(Clone, Copy, Debug, PartialEq, Eq, Structural)]
pub enum Charged {
    /// The user's own.
    Own,
    /// The one that requests with no key share.
    Shared,
}

/// The buckets without those of `refilled`.
pub open spec fn swept<B>(held: Map<u64, B>, refilled: Seq<UserId>) -> Map<u64, B> {
    held.remove_keys(refilled.map_values(|u: UserId| u.0).to_set())
}

/// The buckets once a request has come, and the one it is charged to.
pub open spec fn seated_in<B>(held: Map<u64, B>, who: Option<UserId>, fresh: B) -> (Map<u64, B>, Charged) {
    match who {
        None => (held, Charged::Shared),
        Some(user) => if held.contains_key(user.0) {
            (held, Charged::Own)
        } else if held.len() < MAX_BUCKETS {
            (held.insert(user.0, fresh), Charged::Own)
        } else {
            (held, Charged::Shared)
        },
    }
}

/// There is no room for a bucket that a request calls for.
pub open spec fn crowded<B>(held: Map<u64, B>, who: Option<UserId>) -> bool {
    who matches Some(user) && !held.contains_key(user.0) && held.len() >= MAX_BUCKETS
}

/// The buckets once a request has come and the refilled ones were swept if
/// that was called for, and the one it is charged to.
pub open spec fn admitted<B>(held: Map<u64, B>, who: Option<UserId>, refilled: Seq<UserId>, fresh: B) -> (
    Map<u64, B>,
    Charged,
) {
    if crowded(held, who) {
        seated_in(swept(held, refilled), who, fresh)
    } else {
        seated_in(held, who, fresh)
    }
}

/// The users who have a bucket of their own, and what is in it.
pub struct Buckets<B> {
    users: Table<u64, B>,
}

impl<B> Buckets<B> {
    /// The buckets, by user.
    pub closed spec fn held(&self) -> Map<u64, B> {
        self.users.map()
    }

    /// The users, in order.
    pub closed spec fn seated(&self) -> Seq<u64> {
        self.users.keys()
    }

    /// There are no more buckets than there is room for.
    pub closed spec fn wf(&self) -> bool {
        &&& self.users.wf()
        &&& self.users.keys().len() <= MAX_BUCKETS
    }

    /// No bucket yet.
    pub fn new() -> (buckets: Self)
        ensures
            buckets.wf(),
            buckets.held() == Map::<u64, B>::empty(),
    {
        Buckets { users: Table::new() }
    }

    /// Buckets currently held.
    pub fn count(&self) -> (n: usize)
        requires
            self.wf(),
        ensures
            n == self.held().len(),
            n <= MAX_BUCKETS,
    {
        self.users.len()
    }

    /// Sweeping is called for: the user has no bucket and there is no room
    /// for one.
    pub fn must_sweep(&self, who: Option<UserId>) -> (r: bool)
        requires
            self.wf(),
        ensures
            r == crowded(self.held(), who),
    {
        match who {
            None => false,
            Some(user) => !self.users.contains_key(&user.0) && self.users.len() >= MAX_BUCKETS,
        }
    }

    /// Drop the buckets of `refilled`, the users whose buckets are full
    /// again: a client in the middle of a burst keeps its place, so sweeping
    /// can never hand out free requests.
    pub fn sweep(&mut self, refilled: &Vec<UserId>)
        requires
            old(self).wf(),
        ensures
            final(self).wf(),
            final(self).held() == swept(old(self).held(), refilled@),
    {
        let ghost before = *self;
        let ghost ids = refilled@.map_values(|u: UserId| u.0);
        let mut i: usize = 0;
        proof {
            assert(self.held() =~= before.held().remove_keys(ids.take(0).to_set()));
        }
        while i < refilled.len()
            invariant
                i <= refilled.len(),
                self.wf(),
                ids == refilled@.map_values(|u: UserId| u.0),
                self.held() == before.held().remove_keys(ids.take(i as int).to_set()),
            decreases refilled.len() - i,
        {
            let ghost middle = *self;
            self.users.remove(&refilled[i].0);
            proof {
                middle.users.lemma_len();
                self.users.lemma_len();
                let shorter = ids.take(i as int);
                let longer = ids.take(i as int + 1);
                assert(longer =~= shorter.push(ids[i as int]));
                assert forall|u: u64| longer.to_set().contains(u) <==> (shorter.to_set().contains(u) || u
                    == ids[i as int]) by {
                    if longer.contains(u) {
                        let k = longer.index_of(u);
                        if k < i {
                            assert(shorter[k] == u);
                        }
                    }
                    if shorter.contains(u) {
                        let k = shorter.index_of(u);
                        assert(longer[k] == u);
                    }
                    assert(longer[i as int] == ids[i as int]);
                }
                assert(self.held() =~= before.held().remove_keys(longer.to_set()));
            }
            i = i + 1;
        }
        proof {
            assert(ids.take(ids.len() as int) =~= ids);
        }
    }

    /// Which bucket a request is charged to: the user's own, which is made
    /// fresh where there is room and none yet, or the shared one.
    pub fn seat(&mut self, who: Option<UserId>, fresh: B) -> (charged: Charged)
        requires
            old(self).wf(),
        ensures
            final(self).wf(),
            (final(self).held(), charged) == seated_in(old(self).held(), who, fresh),
    {
        match who {
            None => Charged::Shared,
            Some(user) => {
                if self.users.contains_key(&user.0) {
                    return Charged::Own;
                }
                if self.users.len() < MAX_BUCKETS {
                    let ghost before = *self;
                    self.users.insert(user.0, fresh);
                    proof {
                        before.users.lemma_len();
                        self.users.lemma_len();
                    }
                    Charged::Own
                } else {
                    Charged::Shared
                }
            },
        }
    }

    /// Let a request in: sweep the buckets of `refilled` where that is called
    /// for, and say which bucket the request is charged to.
    pub fn let_in(&mut self, who: Option<UserId>, refilled: &Vec<UserId>, fresh: B) -> (charged: Charged)
        requires
            old(self).wf(),
        ensures
            final(self).wf(),
            (final(self).held(), charged) == admitted(old(self).held(), who, refilled@, fresh),
    {
        if self.must_sweep(who) {
            self.sweep(refilled);
        }
        self.seat(who, fresh)
    }

    /// A user's own bucket, to fill and to charge.
    pub fn bucket_mut(&mut self, user: UserId) -> (r: Option<&mut B>)
        requires
            old(self).wf(),
        ensures
            final(self).wf(),
            match r {
                Some(bucket) => {
                    &&& old(self).held().contains_key(user.0)
                    &&& *bucket == old(self).held()[user.0]
                    &&& final(self).held() == old(self).held().insert(user.0, *final(bucket))
                },
                None => !old(self).held().contains_key(user.0) && *final(self) == *old(self),
            },
    {
        self.users.get_mut(&user.0)
    }

    /// The user at a place in the order of their ids, and their bucket.
    pub fn at(&self, i: usize) -> (r: (UserId, &B))
        requires
            self.wf(),
            i < self.seated().len(),
        ensures
            r.0 == UserId(self.seated()[i as int]),
            self.held().contains_key(r.0.0),
            *r.1 == self.held()[r.0.0],
    {
        (UserId(*self.users.key_at(i)), self.users.val_at(i))
    }
}

// ---------------------------------------------------------------------------
// Laws

/// The users are listed by id: ascending, each once, and none left out. The
/// buckets settle the list.
pub proof fn law_users_are_listed_by_id<B>(buckets: &Buckets<B>, other: &Buckets<B>)
    requires
        buckets.wf(),
        other.wf(),
    ensures
        lists_keys::<u64, B>(buckets.seated(), buckets.held()),
        buckets.held() == other.held() ==> buckets.seated() == other.seated(),
{
    buckets.users.lemma_listed();
    if buckets.held() == other.held() {
        buckets.users.law_the_map_settles_the_order(&other.users);
    }
}

/// A newcomer to a full table in which no bucket has refilled is charged as a
/// request with no key is: to the shared bucket, with every bucket that is
/// held left as it was.
pub proof fn law_a_newcomer_to_a_full_table_shares<B>(held: Map<u64, B>, user: UserId, fresh: B)
    requires
        !held.contains_key(user.0),
        held.len() >= MAX_BUCKETS,
    ensures
        admitted(held, Some(user), Seq::empty(), fresh) == (held, Charged::Shared),
        admitted(held, Some(user), Seq::empty(), fresh) == admitted(held, None, Seq::empty(), fresh),
{
    assert(swept(held, Seq::empty()) =~= held);
}

/// Whoever comes, no bucket goes but those that have refilled, and a client
/// in the middle of a burst has its bucket as it was and is charged to it.
pub proof fn law_a_burst_keeps_its_bucket<B>(
    held: Map<u64, B>,
    who: Option<UserId>,
    refilled: Seq<UserId>,
    user: UserId,
    fresh: B,
)
    requires
        held.contains_key(user.0),
        !refilled.contains(user),
    ensures
        admitted(held, who, refilled, fresh).0.contains_key(user.0),
        admitted(held, who, refilled, fresh).0[user.0] == held[user.0],
        admitted(held, Some(user), refilled, fresh) == (held, Charged::Own),
{
    let ids = refilled.map_values(|u: UserId| u.0);
    if ids.contains(user.0) {
        let i = ids.index_of(user.0);
        assert(refilled[i] == user);
    }
}

/// Whoever is limited is told a number of whole seconds after which the wait
/// is over, and no more of them than it takes, but never none.
pub proof fn law_a_wait_is_told_in_whole_seconds(decision: Decision, r: Option<u64>)
    requires
        call_ensures(Decision::retry_after_secs, (decision,), r),
    ensures
        decision is Allowed <==> r is None,
        decision matches Decision::Limited { retry_after_nanos } ==> (r matches Some(secs) && {
            &&& secs >= 1
            &&& retry_after_nanos <= secs * 1_000_000_000
            &&& secs == 1 || (secs - 1) * 1_000_000_000 < retry_after_nanos
        }),
{
}

/// A user has a bucket of their own where they had one or there is room for
/// one more, and shares the common one otherwise, as does who is nobody.
/// Seating anybody disturbs no bucket.
pub proof fn law_everybody_is_seated_somewhere<B>(held: Map<u64, B>, who: Option<UserId>, fresh: B, other: u64)
    requires
        held.contains_key(other),
    ensures
        ({
            let (seated, charged) = seated_in(held, who, fresh);
            &&& who is None ==> charged is Shared && seated == held
            &&& who matches Some(user) ==> {
                &&& charged is Own <==> held.contains_key(user.0) || held.len() < MAX_BUCKETS
                &&& charged is Own <==> seated.contains_key(user.0)
                &&& charged is Own && !held.contains_key(user.0) ==> seated[user.0] == fresh
            }
            &&& seated.contains_key(other) && seated[other] == held[other]
        }),
{
}

/// The table is swept where a newcomer finds it full, and only then.
pub proof fn law_a_full_table_is_swept_for_a_newcomer<B>(buckets: Buckets<B>, who: Option<UserId>, r: bool)
    requires
        buckets.wf(),
        call_ensures(Buckets::<B>::must_sweep, (&buckets, who), r),
    ensures
        r <==> who is Some && !buckets.held().contains_key((who->0).0) && buckets.held().len() >= MAX_BUCKETS,
{
}

/// Sweeping drops the buckets that have refilled, and no other.
pub proof fn law_sweeping_drops_what_has_refilled<B>(held: Map<u64, B>, refilled: Seq<UserId>, user: UserId)
    ensures
        swept(held, refilled).contains_key(user.0) <==> held.contains_key(user.0) && !refilled.contains(user),
        swept(held, refilled).contains_key(user.0) ==> swept(held, refilled)[user.0] == held[user.0],
{
    let ids = refilled.map_values(|u: UserId| u.0);
    if refilled.contains(user) {
        let i = choose|i: int| 0 <= i < refilled.len() && refilled[i] == user;
        assert(ids[i] == user.0);
        assert(ids.contains(user.0));
    }
    if ids.contains(user.0) {
        let i = choose|i: int| 0 <= i < ids.len() && ids[i] == user.0;
        assert(refilled[i] == user);
    }
}

} // verus!
