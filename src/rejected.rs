//! Tracks transactions that consensus rejected, keyed by their position, with
//! round-based expiry so that memory stays bounded.

use vstd::prelude::*;
use crate::notify::{without_key, waiting_on, NotifyRegistry};
use crate::position::{is_round_expired, ROUND_EXPIRATION, round_expired, same_position, TransactionPosition};

verus! {

/// The rejected positions of one round.
struct RoundBucket {
    round: u64,
    positions: Vec<TransactionPosition>,
}

/// The abstract state of the tracker.
pub struct RejectionState {
    /// Every rejected position that has not expired.
    pub rejected: Set<TransactionPosition>,
    /// Rejected positions grouped by their round.
    pub rounds: Map<u64, Set<TransactionPosition>>,
    /// The highest committed round seen so far, if any.
    pub last_committed_round: Option<u64>,
    /// Registered waiters: id to the position it waits on.
    pub waiters: Map<u64, TransactionPosition>,
}

impl RejectionState {
    /// The tracker's invariants: a position is rejected exactly when its round's
    /// group holds it, groups hold only positions of their round, and no
    /// retained round is expired.
    pub open spec fn consistent(self) -> bool {
        &&& forall|p: TransactionPosition| #[trigger] self.rejected.contains(p) <==>
            (self.rounds.contains_key(p.round()) && self.rounds[p.round()].contains(p))
        &&& forall|r: u64, p: TransactionPosition|
            self.rounds.contains_key(r) && #[trigger] self.rounds[r].contains(p) ==> p.round() == r
        &&& forall|r: u64| #[trigger] self.rounds.contains_key(r) ==>
            !round_expired(r, self.last_committed_round)
    }

    /// The state after rejecting `p`: nothing changes if `p`'s round has
    /// expired; otherwise `p` is recorded and its waiters are woken.
    pub open spec fn reject(self, p: TransactionPosition) -> RejectionState {
        if round_expired(p.round(), self.last_committed_round) {
            self
        } else {
            RejectionState {
                rejected: self.rejected.insert(p),
                rounds: self.rounds.insert(
                    p.round(),
                    if self.rounds.contains_key(p.round()) {
                        self.rounds[p.round()].insert(p)
                    } else {
                        Set::empty().insert(p)
                    },
                ),
                last_committed_round: self.last_committed_round,
                waiters: without_key(self.waiters, p),
            }
        }
    }

    /// The state after committing round `round`: every expired round is
    /// dropped with its positions.
    pub open spec fn advance(self, round: u64) -> RejectionState {
        RejectionState {
            rejected: self.rejected.filter(|q: TransactionPosition| !round_expired(q.round(), Some(round))),
            rounds: self.rounds.restrict(self.rounds.dom().filter(|r: u64| !round_expired(r, Some(round)))),
            last_committed_round: Some(round),
            waiters: self.waiters,
        }
    }

    /// What a wait on `p` resolves to before it suspends.
    pub open spec fn immediate_outcome(self, p: TransactionPosition) -> Option<RejectionOutcome> {
        if self.rejected.contains(p) {
            Some(RejectionOutcome::Rejected)
        } else {
            None
        }
    }

    /// What a suspended wait on `p` resolves to when `event` fires.
    pub open spec fn event_outcome(self, p: TransactionPosition, event: WaitEvent) -> Option<RejectionOutcome> {
        match event {
            WaitEvent::Notified => Some(RejectionOutcome::Rejected),
            WaitEvent::ExpirationTick => if round_expired(p.round(), self.last_committed_round) {
                Some(RejectionOutcome::Expired)
            } else {
                None
            },
            WaitEvent::TimerElapsed => Some(RejectionOutcome::TimedOut),
        }
    }
}

/// How a wait for rejection ends. Every outcome is reported to the caller as
/// a rejection by consensus carrying the outcome's reason.
#[derive(Clone, Copy, Debug, PartialEq, Eq, Structural)]
pub enum RejectionOutcome {
    Rejected,
    Expired,
    TimedOut,
}

/// What can wake a suspended wait.
#[derive(Clone, Copy, Debug, PartialEq, Eq, Structural)]
pub enum WaitEvent {
    /// The registration was notified: the position was rejected.
    Notified,
    /// The periodic expiration check ran.
    ExpirationTick,
    /// The caller's timeout elapsed.
    TimerElapsed,
}

pub open spec fn reason_text(o: RejectionOutcome) -> Seq<char> {
    match o {
        RejectionOutcome::Rejected => "Rejected"@,
        RejectionOutcome::Expired => "Expired"@,
        RejectionOutcome::TimedOut => "TimedOut"@,
    }
}

impl RejectionOutcome {
    /// The reason carried by the rejection error.
    pub fn reason(&self) -> (r: String)
        ensures
            r@ == reason_text(*self),
    {
        match self {
            RejectionOutcome::Rejected => "Rejected".to_owned(),
            RejectionOutcome::Expired => "Expired".to_owned(),
            RejectionOutcome::TimedOut => "TimedOut".to_owned(),
        }
    }
}

/// The start of a wait: the waiter's registration id, and the outcome if the
/// wait is already resolved.
pub struct WaitStart {
    pub waiter: u64,
    pub outcome: Option<RejectionOutcome>,
}

pub struct MysticetiRejectedTransactions {
    rejected: Vec<TransactionPosition>,
    buckets: Vec<RoundBucket>,
    last_committed_round: Option<u64>,
    status_notify: NotifyRegistry,
    rounds: Ghost<Map<u64, Set<TransactionPosition>>>,
}

impl View for MysticetiRejectedTransactions {
    type V = RejectionState;

    closed spec fn view(&self) -> RejectionState {
        RejectionState {
            rejected: self.rejected@.to_set(),
            rounds: self.rounds@,
            last_committed_round: self.last_committed_round,
            waiters: self.status_notify@,
        }
    }
}

fn contains_position(v: &Vec<TransactionPosition>, p: &TransactionPosition) -> (r: bool)
    ensures
        r == v@.contains(*p),
{
    let mut i: usize = 0;
    while i < v.len()
        invariant
            i <= v@.len(),
            forall|j: int| 0 <= j < i ==> v@[j] != *p,
        decreases v.len() - i,
    {
        if same_position(&v[i], p) {
            return true;
        }
        i = i + 1;
    }
    false
}

/// Adds `p` to `v` unless it is already there.
fn push_unique(v: &mut Vec<TransactionPosition>, p: TransactionPosition)
    requires
        old(v)@.no_duplicates(),
    ensures
        final(v)@.no_duplicates(),
        final(v)@.to_set() == old(v)@.to_set().insert(p),
        old(v)@.contains(p) ==> final(v)@ == old(v)@,
{
    if !contains_position(v, &p) {
        v.push(p);
        proof {
            assert(v@ == old(v)@.push(p));
            old(v)@.lemma_push_to_set_commute(p);
        }
    } else {
        proof {
            assert(old(v)@.to_set().insert(p) =~= old(v)@.to_set());
        }
    }
}

impl MysticetiRejectedTransactions {
    pub closed spec fn wf(&self) -> bool {
        &&& self.status_notify.wf()
        &&& self.rejected@.no_duplicates()
        &&& forall|i: int, j: int| 0 <= i < j < self.buckets@.len() ==>
            #[trigger] self.buckets@[i].round < #[trigger] self.buckets@[j].round
        &&& forall|i: int| #![trigger self.buckets@[i]] 0 <= i < self.buckets@.len() ==> {
            &&& self.rounds@.contains_key(self.buckets@[i].round)
            &&& self.rounds@[self.buckets@[i].round] == self.buckets@[i].positions@.to_set()
            &&& self.buckets@[i].positions@.no_duplicates()
        }
        &&& forall|r: u64| #[trigger] self.rounds@.contains_key(r) ==>
            exists|i: int| 0 <= i < self.buckets@.len() && self.buckets@[i].round == r
        &&& self@.consistent()
    }

    /// A waiter can still be registered.
    pub closed spec fn can_wait(&self) -> bool {
        self.status_notify.can_register()
    }

    pub fn new() -> (r: MysticetiRejectedTransactions)
        ensures
            r.wf(),
            r.can_wait(),
            r@.rejected == Set::<TransactionPosition>::empty(),
            r@.rounds == Map::<u64, Set<TransactionPosition>>::empty(),
            r@.last_committed_round == None::<u64>,
            r@.waiters == Map::<u64, TransactionPosition>::empty(),
    {
        let r = MysticetiRejectedTransactions {
            rejected: Vec::new(),
            buckets: Vec::new(),
            last_committed_round: None,
            status_notify: NotifyRegistry::new(),
            rounds: Ghost(Map::empty()),
        };
        proof {
            assert(r.rejected@.to_set() =~= Set::empty());
        }
        r
    }

    /// Records that consensus rejected `position` and wakes its waiters,
    /// whose ids are returned. A position whose round has already expired is
    /// ignored.
    pub fn reject_transaction(&mut self, position: TransactionPosition) -> (woken: Vec<u64>)
        requires
            old(self).wf(),
        ensures
            final(self).wf(),
            final(self)@ == old(self)@.reject(position),
            final(self).can_wait() == old(self).can_wait(),
            round_expired(position.round(), old(self)@.last_committed_round) ==> woken@.len() == 0,
            !round_expired(position.round(), old(self)@.last_committed_round) ==>
                woken@.to_set() == waiting_on(old(self)@.waiters, position),
    {
        let round = position.block_ref.round;
        if is_round_expired(round, self.last_committed_round) {
            return Vec::new();
        }
        let ghost old_rounds = self.rounds@;
        push_unique(&mut self.rejected, position);

        let mut i: usize = 0;
        while i < self.buckets.len() && self.buckets[i].round < round
            invariant
                self.buckets == old(self).buckets,
                i <= self.buckets@.len(),
                forall|j: int| 0 <= j < i ==> #[trigger] self.buckets@[j].round < round,
            decreases self.buckets.len() - i,
        {
            i = i + 1;
        }
        let ghost old_buckets = self.buckets@;
        if i < self.buckets.len() && self.buckets[i].round == round {
            let mut bucket = self.buckets.remove(i);
            push_unique(&mut bucket.positions, position);
            self.buckets.insert(i, bucket);
            proof {
                old_buckets.remove_ensures(i as int);
                old_buckets.remove(i as int).insert_ensures(i as int, bucket);
                assert(self.buckets@ =~= old_buckets.update(i as int, bucket));
                self.rounds = Ghost(old_rounds.insert(round, old_rounds[round].insert(position)));
            }
        } else {
            let mut positions: Vec<TransactionPosition> = Vec::new();
            positions.push(position);
            let bucket = RoundBucket { round, positions };
            self.buckets.insert(i, bucket);
            proof {
                old_buckets.insert_ensures(i as int, bucket);
                assert(!old_rounds.contains_key(round)) by {
                    if old_rounds.contains_key(round) {
                        let k = choose|k: int| 0 <= k < old_buckets.len() && old_buckets[k].round == round;
                        if k < i {
                        } else if k > i {
                            assert(old_buckets[i as int].round < old_buckets[k].round);
                        }
                    }
                }
                assert(positions@ == seq![position]);
                assert(seq![position].to_set() =~= Set::empty().insert(position)) by {
                    assert(seq![position] == Seq::<TransactionPosition>::empty().push(position));
                    Seq::<TransactionPosition>::empty().lemma_push_to_set_commute(position);
                    assert(Seq::<TransactionPosition>::empty().to_set() =~= Set::empty());
                }
                self.rounds = Ghost(old_rounds.insert(round, Set::empty().insert(position)));
            }
        }
        let woken = self.status_notify.notify(&position);
        proof {
            let s = self@;
            let o = old(self)@.reject(position);
            assert(s.rejected == o.rejected);
            assert(s.rounds =~= o.rounds);
            assert(s.waiters == o.waiters);
            assert forall|r: u64| #[trigger] self.rounds@.contains_key(r) implies
                exists|k: int| 0 <= k < self.buckets@.len() && self.buckets@[k].round == r by {
                if r == round {
                    assert(self.buckets@[i as int].round == r);
                } else {
                    let k = choose|k: int| 0 <= k < old_buckets.len() && old_buckets[k].round == r;
                    if self.buckets@.len() == old_buckets.len() {
                        assert(self.buckets@[k].round == r);
                    } else if k < i {
                        assert(self.buckets@[k].round == r);
                    } else {
                        assert(self.buckets@[k + 1].round == r);
                    }
                }
            }
        }
        woken
    }

    /// Starts a wait for `position` to be rejected: registers a waiter first,
    /// then checks whether the position is already rejected. Registering
    /// before the check means a rejection that lands after it still wakes the
    /// waiter. When `outcome` is `None` the caller suspends until one of the
    /// events of `WaitEvent` and asks `wait_event_outcome`.
    pub fn wait_for_rejection(&mut self, position: TransactionPosition) -> (r: WaitStart)
        requires
            old(self).wf(),
            old(self).can_wait(),
        ensures
            final(self).wf(),
            r.outcome == old(self)@.immediate_outcome(position),
            !old(self)@.waiters.contains_key(r.waiter),
            final(self)@ == (RejectionState {
                waiters: old(self)@.waiters.insert(r.waiter, position),
                ..old(self)@
            }),
    {
        let waiter = self.status_notify.register(position);
        assert(self.buckets == old(self).buckets && self.rounds == old(self).rounds);
        assert(forall|r: u64| #[trigger] self.rounds@.contains_key(r) ==>
            exists|i: int| 0 <= i < self.buckets@.len() && self.buckets@[i].round == r);
        let outcome = if contains_position(&self.rejected, &position) {
            Some(RejectionOutcome::Rejected)
        } else {
            None
        };
        WaitStart { waiter, outcome }
    }

    /// Decides a suspended wait on `position` when `event` fires: a
    /// notification means rejection, the expiration check ends the wait only
    /// once the position's round has expired, and the timer means time-out.
    pub fn wait_event_outcome(&self, position: &TransactionPosition, event: WaitEvent) -> (r: Option<RejectionOutcome>)
        ensures
            r == self@.event_outcome(*position, event),
    {
        match event {
            WaitEvent::Notified => Some(RejectionOutcome::Rejected),
            WaitEvent::ExpirationTick => if is_round_expired(position.block_ref.round, self.last_committed_round) {
                Some(RejectionOutcome::Expired)
            } else {
                None
            },
            WaitEvent::TimerElapsed => Some(RejectionOutcome::TimedOut),
        }
    }

    /// Ends the wait of `waiter`, whichever way it resolved.
    pub fn finish_wait(&mut self, waiter: u64)
        requires
            old(self).wf(),
        ensures
            final(self).wf(),
            final(self).can_wait() == old(self).can_wait(),
            final(self)@ == (RejectionState { waiters: old(self)@.waiters.remove(waiter), ..old(self)@ }),
    {
        self.status_notify.deregister(waiter);
        assert(self.buckets == old(self).buckets && self.rounds == old(self).rounds);
        assert(forall|r: u64| #[trigger] self.rounds@.contains_key(r) ==>
            exists|i: int| 0 <= i < self.buckets@.len() && self.buckets@[i].round == r);
    }

    /// Whether another waiter can be registered.
    pub fn has_waiter_capacity(&self) -> (r: bool)
        requires
            self.wf(),
        ensures
            r == self.can_wait(),
    {
        self.status_notify.has_capacity()
    }

    pub fn is_rejected(&self, position: &TransactionPosition) -> (r: bool)
        ensures
            r == self@.rejected.contains(*position),
    {
        contains_position(&self.rejected, position)
    }

    /// Whether the round index holds `position` under `round`.
    pub fn is_indexed(&self, round: u64, position: &TransactionPosition) -> (r: bool)
        requires
            self.wf(),
        ensures
            r == (self@.rounds.contains_key(round) && self@.rounds[round].contains(*position)),
    {
        match self.bucket_index(round) {
            Some(i) => contains_position(&self.buckets[i].positions, position),
            None => false,
        }
    }

    /// Whether the round index has an entry for `round`.
    pub fn has_round(&self, round: u64) -> (r: bool)
        requires
            self.wf(),
        ensures
            r == self@.rounds.contains_key(round),
    {
        self.bucket_index(round).is_some()
    }

    fn bucket_index(&self, round: u64) -> (r: Option<usize>)
        requires
            self.wf(),
        ensures
            r.is_some() == self@.rounds.contains_key(round),
            r matches Some(i) ==> i < self.buckets@.len() && self.buckets@[i as int].round == round,
    {
        let mut i: usize = 0;
        while i < self.buckets.len()
            invariant
                self.wf(),
                i <= self.buckets@.len(),
                forall|j: int| 0 <= j < i ==> #[trigger] self.buckets@[j].round != round,
            decreases self.buckets.len() - i,
        {
            if self.buckets[i].round == round {
                return Some(i);
            }
            i = i + 1;
        }
        None
    }

    pub fn has_no_rejections(&self) -> (r: bool)
        requires
            self.wf(),
        ensures
            r == (self@.rejected == Set::<TransactionPosition>::empty()),
    {
        proof {
            if self.rejected@.len() > 0 {
                assert(self@.rejected.contains(self.rejected@[0]));
            } else {
                assert(self@.rejected =~= Set::empty());
            }
        }
        self.rejected.len() == 0
    }

    pub fn round_index_is_empty(&self) -> (r: bool)
        requires
            self.wf(),
        ensures
            r == (self@.rounds == Map::<u64, Set<TransactionPosition>>::empty()),
    {
        proof {
            if self.buckets@.len() > 0 {
                assert(self@.rounds.contains_key(self.buckets@[0].round));
            } else {
                assert(self@.rounds =~= Map::empty());
            }
        }
        self.buckets.len() == 0
    }

    pub fn last_committed_round(&self) -> (r: Option<u64>)
        ensures
            r == self@.last_committed_round,
    {
        self.last_committed_round
    }

    /// Records `round` as the last committed round and drops every rejected
    /// position whose round has expired relative to it. Expired rounds always
    /// form a prefix of the ascending round index, so the index is trimmed
    /// from its lowest round up to the first retained one.
    ///
    /// Rounds are committed in increasing order. A lower round is taken as
    /// given: nothing dropped earlier comes back, and the retention window is
    /// then measured from the lower round.
    pub fn update_last_committed_round(&mut self, round: u64)
        requires
            old(self).wf(),
        ensures
            final(self).wf(),
            final(self)@ == old(self)@.advance(round),
            final(self).can_wait() == old(self).can_wait(),
    {
        let ghost old_rounds = self.rounds@;
        while self.buckets.len() > 0 && is_round_expired(self.buckets[0].round, Some(round))
            invariant
                self.status_notify == old(self).status_notify,
                self.rejected == old(self).rejected,
                self.last_committed_round == old(self).last_committed_round,
                forall|i: int, j: int| 0 <= i < j < self.buckets@.len() ==>
                    #[trigger] self.buckets@[i].round < #[trigger] self.buckets@[j].round,
                forall|i: int| #![trigger self.buckets@[i]] 0 <= i < self.buckets@.len() ==> {
                    &&& self.rounds@.contains_key(self.buckets@[i].round)
                    &&& self.rounds@[self.buckets@[i].round] == self.buckets@[i].positions@.to_set()
                    &&& self.buckets@[i].positions@.no_duplicates()
                },
                forall|r: u64| #[trigger] self.rounds@.contains_key(r) ==>
                    exists|i: int| 0 <= i < self.buckets@.len() && self.buckets@[i].round == r,
                forall|r: u64| #[trigger] self.rounds@.contains_key(r) ==>
                    old_rounds.contains_key(r) && self.rounds@[r] == old_rounds[r],
                forall|r: u64| #[trigger] old_rounds.contains_key(r) && !self.rounds@.contains_key(r)
                    ==> round_expired(r, Some(round)),
            decreases self.buckets.len(),
        {
            let ghost before = self.buckets@;
            let bucket = self.buckets.remove(0);
            proof {
                before.remove_ensures(0);
                let r0 = bucket.round;
                self.rounds = Ghost(self.rounds@.remove(r0));
                assert forall|r: u64| #[trigger] self.rounds@.contains_key(r) implies
                    exists|i: int| 0 <= i < self.buckets@.len() && self.buckets@[i].round == r by {
                    let k = choose|k: int| 0 <= k < before.len() && before[k].round == r;
                    assert(k != 0);
                    assert(self.buckets@[k - 1].round == r);
                }
                assert forall|i: int| #![trigger self.buckets@[i]] 0 <= i < self.buckets@.len() implies
                    self.buckets@[i].round != r0 by {
                    assert(self.buckets@[i] == before[i + 1]);
                    assert(before[0].round < before[i + 1].round);
                }
            }
        }
        let ghost kept_rounds = self.rounds@;
        proof {
            assert forall|r: u64| #[trigger] kept_rounds.contains_key(r) implies
                !round_expired(r, Some(round)) by {
                let k = choose|k: int| 0 <= k < self.buckets@.len() && self.buckets@[k].round == r;
                if k > 0 {
                    assert(self.buckets@[0].round < self.buckets@[k].round);
                }
            }
        }

        let ghost mid = *self;
        assert(forall|r: u64| #[trigger] mid.rounds@.contains_key(r) ==>
            exists|i: int| 0 <= i < mid.buckets@.len() && mid.buckets@[i].round == r);
        let mut kept: Vec<TransactionPosition> = Vec::new();
        let mut i: usize = 0;
        while i < self.rejected.len()
            invariant
                *self == mid,
                self.rejected == old(self).rejected,
                self.rejected@.no_duplicates(),
                i <= self.rejected@.len(),
                kept@.no_duplicates(),
                forall|p: TransactionPosition| #[trigger] kept@.contains(p) <==>
                    (self.rejected@.subrange(0, i as int).contains(p) && !round_expired(p.round(), Some(round))),
            decreases self.rejected.len() - i,
        {
            let p = self.rejected[i];
            let ghost kept_before = kept@;
            let ghost prefix = self.rejected@.subrange(0, i as int);
            proof {
                assert(self.rejected@.subrange(0, i + 1) =~= prefix.push(p));
                assert forall|q: TransactionPosition| #[trigger] prefix.push(p).contains(q) <==>
                    (prefix.contains(q) || q == p) by {
                    if prefix.contains(q) {
                        let k = choose|k: int| 0 <= k < prefix.len() && prefix[k] == q;
                        assert(prefix.push(p)[k] == q);
                    }
                    if q == p {
                        assert(prefix.push(p)[prefix.len() as int] == q);
                    }
                    if prefix.push(p).contains(q) {
                        let k = choose|k: int| 0 <= k < prefix.len() + 1 && prefix.push(p)[k] == q;
                        if k < prefix.len() {
                            assert(prefix[k] == q);
                        }
                    }
                }
            }
            if !is_round_expired(p.block_ref.round, Some(round)) {
                proof {
                    assert(!self.rejected@.subrange(0, i as int).contains(p)) by {
                        if self.rejected@.subrange(0, i as int).contains(p) {
                            let k = choose|k: int| 0 <= k < i && self.rejected@.subrange(0, i as int)[k] == p;
                            assert(self.rejected@[k] == self.rejected@[i as int]);
                        }
                    }
                }
                kept.push(p);
                proof {
                    assert(!kept_before.contains(p));
                    assert forall|a: int, b: int| 0 <= a < kept@.len() && 0 <= b < kept@.len() && a != b
                        implies kept@[a] != kept@[b] by {
                        if a < kept_before.len() && b < kept_before.len() {
                            assert(kept@[a] == kept_before[a] && kept@[b] == kept_before[b]);
                        } else if a < kept_before.len() {
                            assert(kept@[a] == kept_before[a]);
                        } else if b < kept_before.len() {
                            assert(kept@[b] == kept_before[b]);
                        }
                    }
                    assert forall|q: TransactionPosition| #[trigger] kept@.contains(q) <==>
                        (kept_before.contains(q) || q == p) by {
                        if kept_before.contains(q) {
                            let k = choose|k: int| 0 <= k < kept_before.len() && kept_before[k] == q;
                            assert(kept@[k] == q);
                        }
                        if q == p {
                            assert(kept@[kept@.len() - 1] == q);
                        }
                    }
                }
            }
            i = i + 1;
        }
        proof {
            assert(self.rejected@.subrange(0, self.rejected@.len() as int) =~= self.rejected@);
        }
        self.rejected = kept;
        self.last_committed_round = Some(round);
        proof {
            let s = self@;
            let o = old(self)@.advance(round);
            assert(s.rejected =~= o.rejected);
            assert(s.rounds =~= o.rounds);
            lemma_advance_consistent(old(self)@, round);
            assert(self.buckets@ == mid.buckets@ && self.rounds@ == mid.rounds@);
        }
    }
}

/// Committing a round keeps the tracker's invariants.
pub proof fn lemma_advance_consistent(s: RejectionState, round: u64)
    requires
        s.consistent(),
    ensures
        s.advance(round).consistent(),
{
    let a = s.advance(round);
    assert forall|p: TransactionPosition| #[trigger] a.rejected.contains(p) <==>
        (a.rounds.contains_key(p.round()) && a.rounds[p.round()].contains(p)) by {
        assert(s.rejected.contains(p) <==>
            (s.rounds.contains_key(p.round()) && s.rounds[p.round()].contains(p)));
    }
    assert forall|r: u64, p: TransactionPosition|
        a.rounds.contains_key(r) && #[trigger] a.rounds[r].contains(p) implies p.round() == r by {
        assert(s.rounds[r].contains(p));
    }
}

/// A position rejected inside the retention window is rejected afterwards,
/// and a wait on it resolves at once as rejected.
pub proof fn lemma_rejection_resolves_wait(s: RejectionState, p: TransactionPosition)
    requires
        s.consistent(),
        !round_expired(p.round(), s.last_committed_round),
    ensures
        s.reject(p).rejected.contains(p),
        s.reject(p).rounds[p.round()].contains(p),
        s.reject(p).immediate_outcome(p) == Some(RejectionOutcome::Rejected),
{
}

/// Committing a round more than the window past a position's round drops the
/// position from the rejected set and from the round index; a wait on it is
/// then not resolved at once, and the expiration check ends it as expired.
pub proof fn lemma_expired_position_dropped(s: RejectionState, p: TransactionPosition, round: u64)
    requires
        s.consistent(),
        p.round() + ROUND_EXPIRATION < round,
    ensures
        !s.advance(round).rejected.contains(p),
        forall|r: u64| #[trigger] s.advance(round).rounds.contains_key(r) ==>
            !s.advance(round).rounds[r].contains(p),
        s.advance(round).immediate_outcome(p) == None::<RejectionOutcome>,
        s.advance(round).event_outcome(p, WaitEvent::ExpirationTick) == Some(RejectionOutcome::Expired),
{
    let a = s.advance(round);
    assert forall|r: u64| #[trigger] a.rounds.contains_key(r) implies !a.rounds[r].contains(p) by {
        if a.rounds[r].contains(p) {
            assert(s.rounds[r].contains(p));
        }
    }
}

/// Rejecting a position whose round has already expired changes nothing.
pub proof fn lemma_stale_rejection_ignored(s: RejectionState, p: TransactionPosition)
    requires
        round_expired(p.round(), s.last_committed_round),
    ensures
        s.reject(p) == s,
{
}

/// Garbage collection removes a prefix of the rounds: after committing
/// `round`, exactly the rounds within the window of it are retained, and
/// every dropped round lies below every retained one.
pub proof fn lemma_gc_drops_prefix(s: RejectionState, round: u64)
    requires
        s.consistent(),
    ensures
        forall|r: u64| #[trigger] s.advance(round).rounds.contains_key(r) ==>
            r + ROUND_EXPIRATION >= round,
        forall|r: u64| s.rounds.contains_key(r) ==>
            (#[trigger] s.advance(round).rounds.contains_key(r) <==> r + ROUND_EXPIRATION >= round),
        forall|dropped: u64, kept: u64|
            #[trigger] s.rounds.contains_key(dropped) && !s.advance(round).rounds.contains_key(dropped)
                && #[trigger] s.advance(round).rounds.contains_key(kept) ==> dropped < kept,
        s.advance(round).consistent(),
{
    lemma_advance_consistent(s, round);
}

/// Rejecting the same position twice leaves the state of rejecting it once.
pub proof fn lemma_reject_idempotent(s: RejectionState, p: TransactionPosition)
    ensures
        s.reject(p).reject(p) == s.reject(p),
{
    if !round_expired(p.round(), s.last_committed_round) {
        let once = s.reject(p);
        let twice = once.reject(p);
        assert(twice.rejected =~= once.rejected);
        assert(once.rounds[p.round()].insert(p) =~= once.rounds[p.round()]);
        assert(twice.rounds =~= once.rounds);
        assert(twice.waiters =~= once.waiters);
    }
}

} // verus!
