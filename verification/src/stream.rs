//! The stream: the number each published message takes, and the bounded
//! buffer a reconnecting client is served from.
//!
//! Every message published takes the next number, so a client can tell a gap
//! from a quiet market and ask for what it missed.

use std::collections::VecDeque;

use vstd::prelude::*;

verus! {

/// A stream message with its place in the stream.
#[derive(Clone, Debug)]
pub struct Sequenced<M> {
    pub seq: u64,
    pub message: M,
}

/// The sequence counter and the most recently published messages, oldest
/// first.
pub struct StreamLog<M> {
    next_seq: u64,
    recent: VecDeque<Sequenced<M>>,
    cap: usize,
}

/// A new stream connection: where it joins and what it missed.
pub struct Subscription<'a, M> {
    /// The last sequence published before this connection opened.
    pub seq: u64,
    /// The earliest sequence the replay buffer still holds. Equal to
    /// `seq + 1` when nothing is buffered.
    pub oldest_seq: u64,
    /// What was asked for and the buffer still had, oldest first.
    pub replay: Vec<&'a Sequenced<M>>,
    /// Set when what was asked for reached further back than the buffer
    /// goes: some messages are gone for good and the client must reload.
    pub gap: bool,
}

impl<M> StreamLog<M> {
    /// The number the next message takes.
    pub closed spec fn next(&self) -> int {
        self.next_seq as int
    }

    /// The messages still kept, oldest first.
    pub closed spec fn kept(&self) -> Seq<Sequenced<M>> {
        self.recent@
    }

    /// How many messages are kept.
    pub closed spec fn limit(&self) -> int {
        self.cap as int
    }

    /// The kept messages carry the numbers up to the last one published,
    /// without a hole, and there are no more of them than are kept.
    pub open spec fn wf(&self) -> bool {
        &&& 1 <= self.next() <= u64::MAX
        &&& self.kept().len() <= self.limit()
        &&& self.kept().len() < self.next()
        &&& forall|i: int|
            0 <= i < self.kept().len() ==> (#[trigger] self.kept()[i]).seq == self.next() - self.kept().len() + i
    }

    /// The number of the oldest message kept, or of the next one where none
    /// is.
    pub open spec fn oldest(&self) -> int {
        self.next() - self.kept().len()
    }

    /// A stream that keeps `cap` messages. The first one published is 1, so 0
    /// is "nothing yet".
    pub fn new(cap: usize) -> (log: Self)
        ensures
            log.wf(),
            log.next() == 1,
            log.kept().len() == 0,
            log.limit() == cap,
    {
        StreamLog { next_seq: 1, recent: VecDeque::new(), cap }
    }

    /// Number a message and keep it, dropping the oldest where there is no
    /// room. Returns the number it took.
    pub fn publish(&mut self, message: M) -> (seq: u64)
        requires
            old(self).wf(),
            old(self).next() < u64::MAX,
        ensures
            final(self).wf(),
            seq == old(self).next(),
            final(self).next() == old(self).next() + 1,
            final(self).limit() == old(self).limit(),
            final(self).kept() == kept_with(old(self).kept(), old(self).limit(), Sequenced { seq, message }),
    {
        let ghost before = *self;
        let seq: u64 = self.next_seq;
        self.next_seq = self.next_seq + 1;
        if self.cap > 0 {
            if self.recent.len() >= self.cap {
                self.recent.pop_front();
            }
            self.recent.push_back(Sequenced { seq, message });
            proof {
                let all = before.kept().push(Sequenced { seq, message });
                if before.kept().len() >= before.limit() {
                    assert(self.kept() =~= all.drop_first());
                } else {
                    assert(self.kept() =~= all);
                }
            }
        } else {
            proof {
                assert(self.kept() =~= Seq::<Sequenced<M>>::empty());
            }
        }
        seq
    }

    /// Messages published since start-up.
    pub fn published(&self) -> (n: u64)
        requires
            self.wf(),
        ensures
            n == self.next() - 1,
    {
        self.next_seq - 1
    }

    /// What a subscriber is told who has seen everything up to `since`.
    pub open spec fn catches_up(&self, since: Option<u64>, subscription: Subscription<'_, M>) -> bool {
        &&& subscription.seq == self.next() - 1
        &&& subscription.oldest_seq == self.oldest()
        &&& match since {
            None => subscription.replay@.len() == 0 && !subscription.gap,
            Some(since) => {
                let from = missed_from(since as int, self.oldest(), self.kept().len() as int);
                &&& subscription.gap == (since + 1 < self.oldest())
                &&& subscription.replay@.len() == self.kept().len() - from
                &&& forall|i: int|
                    0 <= i < subscription.replay@.len() ==> *#[trigger] subscription.replay@[i] == self.kept()[from + i]
            },
        }
    }

    /// Open a connection, optionally asking for everything after `since`.
    pub fn subscribe(&self, since: Option<u64>) -> (subscription: Subscription<'_, M>)
        requires
            self.wf(),
        ensures
            self.catches_up(since, subscription),
    {
        let n: usize = self.recent.len();
        let seq: u64 = self.next_seq - 1;
        let oldest_seq: u64 = if n == 0 { self.next_seq } else { self.recent[0].seq };
        proof {
            if n > 0 {
                assert(self.kept()[0].seq == self.next() - n);
            }
        }
        match since {
            None => Subscription { seq, oldest_seq, replay: Vec::new(), gap: false },
            Some(since) => {
                let gap: bool = since < u64::MAX && since + 1 < oldest_seq;
                let skip: u64 = if since < oldest_seq { 0 } else { since - oldest_seq + 1 };
                let from: usize = if skip > n as u64 { n } else { skip as usize };
                let mut replay: Vec<&Sequenced<M>> = Vec::new();
                let mut i: usize = from;
                while i < n
                    invariant
                        from <= i <= n,
                        n == self.kept().len(),
                        replay@.len() == i - from,
                        forall|j: int| 0 <= j < replay@.len() ==> *#[trigger] replay@[j] == self.kept()[from + j],
                    decreases n - i,
                {
                    replay.push(&self.recent[i]);
                    i = i + 1;
                }
                Subscription { seq, oldest_seq, replay, gap }
            },
        }
    }
}

/// The messages kept once one more is published.
pub open spec fn kept_with<M>(kept: Seq<Sequenced<M>>, limit: int, one: Sequenced<M>) -> Seq<Sequenced<M>> {
    if limit == 0 {
        Seq::empty()
    } else if kept.push(one).len() > limit {
        kept.push(one).drop_first()
    } else {
        kept.push(one)
    }
}

/// Where what came after `since` starts, in a buffer of `n` messages whose
/// first is numbered `oldest`.
pub open spec fn missed_from(since: int, oldest: int, n: int) -> int {
    if since < oldest {
        0
    } else if since - oldest + 1 > n {
        n
    } else {
        since - oldest + 1
    }
}

// ---------------------------------------------------------------------------
// Laws

/// Where there is no gap, the replay is everything published after `since`:
/// the numbers from `since + 1` to the last one, each exactly once and in
/// order.
pub proof fn law_without_a_gap_nothing_is_missed<M>(log: StreamLog<M>, since: u64)
    requires
        log.wf(),
        since + 1 >= log.oldest(),
        since < log.next(),
    ensures
        ({
            let from = missed_from(since as int, log.oldest(), log.kept().len() as int);
            &&& log.kept().len() - from == log.next() - 1 - since
            &&& forall|i: int|
                0 <= i < log.kept().len() - from ==> (#[trigger] log.kept()[from + i]).seq == since + 1 + i
        }),
{
    let from = missed_from(since as int, log.oldest(), log.kept().len() as int);
    assert forall|i: int| 0 <= i < log.kept().len() - from implies (#[trigger] log.kept()[from + i]).seq == since + 1
        + i by {
        assert(log.kept()[from + i].seq == log.next() - log.kept().len() + (from + i));
    }
}

/// A subscriber is sent every message that is still kept and newer than what
/// it has seen, in order and nothing older, and is told of a gap exactly where
/// one it has not seen is no longer kept. One that asks for nothing back gets
/// nothing.
pub proof fn law_a_subscriber_catches_up<M>(
    log: StreamLog<M>,
    since: Option<u64>,
    subscription: Subscription<'_, M>,
    i: int,
)
    requires
        log.wf(),
        log.catches_up(since, subscription),
        0 <= i < log.kept().len(),
    ensures
        subscription.seq == log.next() - 1,
        subscription.oldest_seq == log.kept()[0].seq,
        since is None ==> subscription.replay@.len() == 0 && !subscription.gap,
        since matches Some(seen) ==> {
            &&& subscription.gap <==> seen + 1 < log.kept()[0].seq
            &&& log.kept()[i].seq > seen <==> subscription.replay@.map_values(|m: &Sequenced<M>| *m).contains(
                log.kept()[i],
            )
            &&& forall|j: int, k: int|
                0 <= j < k < subscription.replay@.len() ==> (#[trigger] subscription.replay@[j]).seq < (
                #[trigger] subscription.replay@[k]).seq
        },
{
    if since is Some {
        let seen = since->0;
        let from = missed_from(seen as int, log.oldest(), log.kept().len() as int);
        let sent = subscription.replay@.map_values(|m: &Sequenced<M>| *m);
        if log.kept()[i].seq > seen {
            assert(*subscription.replay@[i - from] == log.kept()[from + (i - from)]);
            assert(sent[i - from] == log.kept()[i]);
        }
        if sent.contains(log.kept()[i]) {
            let j = choose|j: int| 0 <= j < sent.len() && sent[j] == log.kept()[i];
            assert(*subscription.replay@[j] == log.kept()[from + j]);
        }
        assert forall|j: int, k: int| 0 <= j < k < subscription.replay@.len() implies (
        #[trigger] subscription.replay@[j]).seq < (#[trigger] subscription.replay@[k]).seq by {
            assert(*subscription.replay@[j] == log.kept()[from + j]);
            assert(*subscription.replay@[k] == log.kept()[from + k]);
        }
    }
}

/// What is published is kept last, the messages before it in the order they
/// were, and no more of them than there is room for: the oldest go first.
pub proof fn law_the_newest_messages_are_kept<M>(kept: Seq<Sequenced<M>>, limit: int, one: Sequenced<M>, i: int)
    requires
        limit >= 0,
        kept.len() <= limit,
        0 <= i < kept_with(kept, limit, one).len(),
    ensures
        kept_with(kept, limit, one).len() == (if kept.len() + 1 <= limit {
            kept.len() + 1
        } else {
            limit as nat
        }),
        kept_with(kept, limit, one).last() == one,
        kept_with(kept, limit, one)[i] == kept.push(one)[kept.len() + 1 - kept_with(kept, limit, one).len() + i],
{
}

} // verus!
