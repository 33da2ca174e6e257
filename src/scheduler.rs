//! Readiness scheduling: which certificates of an epoch are scheduled, what
//! each one waits for, and what is handed to execution once the wait ends.
//!
//! The waits themselves (object availability, executed effects) are performed
//! by the caller; this module decides what to wait for and what follows.

use vstd::prelude::*;
use crate::position::same_digest;

verus! {

/// A 32-byte object id.
pub type ObjectId = [u8; 32];

/// A 32-byte transaction or effects digest.
pub type Digest = [u8; 32];

/// A versioned object reference: an object the transaction may receive.
#[derive(Clone, Copy, Debug, PartialEq, Eq, Hash)]
pub struct ObjectRef {
    pub id: ObjectId,
    pub version: u64,
}

/// A versioned object, or a package, that a transaction needs as input.
#[derive(Clone, Copy, Debug, PartialEq, Eq, Hash)]
pub enum InputKey {
    VersionedObject { id: ObjectId, start_version: Option<u64>, version: u64 },
    Package { id: ObjectId },
}

/// What scheduling reads of a certified, executable transaction.
#[derive(Debug)]
pub struct ExecutableTransaction {
    pub digest: Digest,
    pub epoch: u64,
    /// Objects the transaction may consume through a receive capability.
    pub receiving_objects: Vec<ObjectRef>,
}

/// A certificate admitted for scheduling.
#[derive(Debug)]
pub struct ScheduledCertificate {
    pub certificate: ExecutableTransaction,
    pub expected_effects_digest: Option<Digest>,
}

/// Timestamps of a certificate's way through scheduling, in the caller's
/// monotonic clock.
#[derive(Clone, Copy, Debug, PartialEq, Eq)]
pub struct PendingCertificateStats {
    pub enqueue_time: u64,
    pub ready_time: Option<u64>,
}

/// A certificate whose inputs are all available, ready for execution.
#[derive(Debug)]
pub struct PendingCertificate {
    pub certificate: ExecutableTransaction,
    pub expected_effects_digest: Option<Digest>,
    /// Inputs still missing; always empty at hand-off.
    pub waiting_input_objects: Vec<InputKey>,
    pub stats: PendingCertificateStats,
}

/// What a scheduled certificate waits on: every key of
/// `input_and_receiving_keys` to be available (of which `receiving_keys` are
/// the received objects), or the effects of `digests` to exist.
#[derive(Debug)]
pub struct ReadinessWait {
    pub certificate: ExecutableTransaction,
    pub expected_effects_digest: Option<Digest>,
    pub enqueue_time: u64,
    pub input_and_receiving_keys: Vec<InputKey>,
    pub receiving_keys: Vec<InputKey>,
    pub digests: Vec<Digest>,
}

/// The first of the two waits to complete.
#[derive(Clone, Copy, Debug, PartialEq, Eq)]
pub enum ReadinessEvent {
    /// Every input object became available at time `now`.
    InputsAvailable { now: u64 },
    /// The transaction's effects already exist: another path executed it.
    AlreadyExecuted,
}

/// Refusal by admission control.
#[derive(Clone, Copy, Debug, PartialEq, Eq)]
pub enum OverloadError {
    Overloaded,
}

pub open spec fn in_epoch(epoch: u64) -> spec_fn(ScheduledCertificate) -> bool {
    |c: ScheduledCertificate| c.certificate.epoch == epoch
}

pub open spec fn without_expected_effects() -> spec_fn(ExecutableTransaction) -> ScheduledCertificate {
    |c: ExecutableTransaction| ScheduledCertificate { certificate: c, expected_effects_digest: None }
}

pub open spec fn with_expected_effects() -> spec_fn((ExecutableTransaction, Digest)) -> ScheduledCertificate {
    |c: (ExecutableTransaction, Digest)| ScheduledCertificate { certificate: c.0, expected_effects_digest: Some(c.1) }
}

/// The input key of a received object: assumed a fast-path object, so it has
/// no start version.
pub open spec fn receiving_key(o: ObjectRef) -> InputKey {
    InputKey::VersionedObject { id: o.id, start_version: None, version: o.version }
}

pub open spec fn receiving_keys_of(objects: Seq<ObjectRef>) -> Set<InputKey> {
    objects.map_values(|o: ObjectRef| receiving_key(o)).to_set()
}

fn same_key(a: &InputKey, b: &InputKey) -> (r: bool)
    ensures
        r == (*a == *b),
{
    match (a, b) {
        (
            InputKey::VersionedObject { id: ia, start_version: sa, version: va },
            InputKey::VersionedObject { id: ib, start_version: sb, version: vb },
        ) => {
            let same_start = match (sa, sb) {
                (Some(x), Some(y)) => *x == *y,
                (None, None) => true,
                _ => false,
            };
            same_start && *va == *vb && same_digest(ia, ib)
        },
        (InputKey::Package { id: ia }, InputKey::Package { id: ib }) => same_digest(ia, ib),
        _ => false,
    }
}

fn contains_key(v: &Vec<InputKey>, k: &InputKey) -> (r: bool)
    ensures
        r == v@.contains(*k),
{
    let mut i: usize = 0;
    while i < v.len()
        invariant
            i <= v@.len(),
            forall|j: int| 0 <= j < i ==> v@[j] != *k,
        decreases v.len() - i,
    {
        if same_key(&v[i], k) {
            return true;
        }
        i = i + 1;
    }
    false
}

/// The keys of the objects `cert` may receive, each once.
pub fn receiving_object_keys(cert: &ExecutableTransaction) -> (r: Vec<InputKey>)
    ensures
        r@.no_duplicates(),
        r@.to_set() == receiving_keys_of(cert.receiving_objects@),
{
    let mut keys: Vec<InputKey> = Vec::new();
    let mut i: usize = 0;
    while i < cert.receiving_objects.len()
        invariant
            i <= cert.receiving_objects@.len(),
            keys@.no_duplicates(),
            forall|k: InputKey| #[trigger] keys@.contains(k) <==>
                exists|j: int| 0 <= j < i && receiving_key(cert.receiving_objects@[j]) == k,
        decreases cert.receiving_objects.len() - i,
    {
        let o = cert.receiving_objects[i];
        let key = InputKey::VersionedObject { id: o.id, start_version: None, version: o.version };
        let ghost before = keys@;
        if !contains_key(&keys, &key) {
            keys.push(key);
            proof {
                assert forall|a: int, b: int| 0 <= a < keys@.len() && 0 <= b < keys@.len() && a != b
                    implies keys@[a] != keys@[b] by {
                    if a < before.len() && b < before.len() {
                        assert(keys@[a] == before[a] && keys@[b] == before[b]);
                    } else if a < before.len() {
                        assert(keys@[a] == before[a]);
                    } else if b < before.len() {
                        assert(keys@[b] == before[b]);
                    }
                }
            }
        }
        proof {
            assert forall|k: InputKey| #[trigger] keys@.contains(k) <==>
                exists|j: int| 0 <= j < i + 1 && receiving_key(cert.receiving_objects@[j]) == k by {
                if exists|j: int| 0 <= j < i + 1 && receiving_key(cert.receiving_objects@[j]) == k {
                    let j = choose|j: int| 0 <= j < i + 1 && receiving_key(cert.receiving_objects@[j]) == k;
                    if j < i {
                        assert(before.contains(k));
                        let m = choose|m: int| 0 <= m < before.len() && before[m] == k;
                        assert(keys@[m] == k);
                    } else if !before.contains(k) {
                        assert(keys@[keys@.len() - 1] == k);
                    } else {
                        let m = choose|m: int| 0 <= m < before.len() && before[m] == k;
                        assert(keys@[m] == k);
                    }
                }
                if keys@.contains(k) && !before.contains(k) {
                    let m = choose|m: int| 0 <= m < keys@.len() && keys@[m] == k;
                    if m < before.len() {
                        assert(before[m] == k);
                    }
                    assert(receiving_key(cert.receiving_objects@[i as int]) == k);
                }
            }
        }
        i = i + 1;
    }
    proof {
        let mapped = cert.receiving_objects@.map_values(|o: ObjectRef| receiving_key(o));
        assert forall|k: InputKey| keys@.to_set().contains(k) <==> mapped.to_set().contains(k) by {
            if keys@.contains(k) {
                let j = choose|j: int| 0 <= j < i && receiving_key(cert.receiving_objects@[j]) == k;
                assert(mapped[j] == k);
            }
            if mapped.contains(k) {
                let j = choose|j: int| 0 <= j < mapped.len() && mapped[j] == k;
                assert(receiving_key(cert.receiving_objects@[j]) == k);
            }
        }
        assert(keys@.to_set() =~= mapped.to_set());
    }
    keys
}

/// Decides which certificates are scheduled and what becomes of each.
pub struct TransactionManagerV2 {}

impl TransactionManagerV2 {
    pub fn new() -> (r: TransactionManagerV2) {
        TransactionManagerV2 {}
    }

    /// Schedules certificates whose expected effects are known.
    pub fn enqueue_with_expected_effects_digest(&self, certs: Vec<(ExecutableTransaction, Digest)>, epoch: u64) -> (r: Vec<ScheduledCertificate>)
        ensures
            r@ == certs@.map_values(with_expected_effects()).filter(in_epoch(epoch)),
    {
        let ghost orig = certs@;
        let mut certs = certs;
        let mut out: Vec<ScheduledCertificate> = Vec::new();
        let ghost mut k: int = 0;
        while certs.len() > 0
            invariant
                0 <= k <= orig.len(),
                certs@ == orig.subrange(k, orig.len() as int),
                out@ == orig.subrange(0, k).map_values(with_expected_effects()),
            decreases certs.len(),
        {
            let (cert, fx) = certs.remove(0);
            proof {
                assert(orig.subrange(0, k + 1) =~= orig.subrange(0, k).push(orig[k]));
                assert(orig.subrange(0, k + 1).map_values(with_expected_effects())
                    =~= orig.subrange(0, k).map_values(with_expected_effects()).push(with_expected_effects()(orig[k])));
                assert(certs@ =~= orig.subrange(k + 1, orig.len() as int));
                k = k + 1;
            }
            out.push(ScheduledCertificate { certificate: cert, expected_effects_digest: Some(fx) });
        }
        proof {
            assert(orig.subrange(0, k) =~= orig);
        }
        self.enqueue_impl(out, epoch)
    }

    /// Schedules certified transactions.
    pub fn enqueue_certificates(&self, certs: Vec<ExecutableTransaction>, epoch: u64) -> (r: Vec<ScheduledCertificate>)
        ensures
            r@ == certs@.map_values(without_expected_effects()).filter(in_epoch(epoch)),
    {
        self.enqueue(certs, epoch)
    }

    /// Schedules executable transactions with no expected effects.
    pub fn enqueue(&self, certs: Vec<ExecutableTransaction>, epoch: u64) -> (r: Vec<ScheduledCertificate>)
        ensures
            r@ == certs@.map_values(without_expected_effects()).filter(in_epoch(epoch)),
    {
        let ghost orig = certs@;
        let mut certs = certs;
        let mut out: Vec<ScheduledCertificate> = Vec::new();
        let ghost mut k: int = 0;
        while certs.len() > 0
            invariant
                0 <= k <= orig.len(),
                certs@ == orig.subrange(k, orig.len() as int),
                out@ == orig.subrange(0, k).map_values(without_expected_effects()),
            decreases certs.len(),
        {
            let cert = certs.remove(0);
            proof {
                assert(orig.subrange(0, k + 1) =~= orig.subrange(0, k).push(orig[k]));
                assert(orig.subrange(0, k + 1).map_values(without_expected_effects())
                    =~= orig.subrange(0, k).map_values(without_expected_effects()).push(without_expected_effects()(orig[k])));
                assert(certs@ =~= orig.subrange(k + 1, orig.len() as int));
                k = k + 1;
            }
            out.push(ScheduledCertificate { certificate: cert, expected_effects_digest: None });
        }
        proof {
            assert(orig.subrange(0, k) =~= orig);
        }
        self.enqueue_impl(out, epoch)
    }

    /// Keeps, in order, the certificates of `epoch`; the others belong to an
    /// epoch that has ended and are dropped. Each one kept gets its own
    /// scheduling task.
    fn enqueue_impl(&self, certs: Vec<ScheduledCertificate>, epoch: u64) -> (r: Vec<ScheduledCertificate>)
        ensures
            r@ == certs@.filter(in_epoch(epoch)),
    {
        let ghost orig = certs@;
        let mut certs = certs;
        let mut out: Vec<ScheduledCertificate> = Vec::new();
        let ghost mut k: int = 0;
        while certs.len() > 0
            invariant
                0 <= k <= orig.len(),
                certs@ == orig.subrange(k, orig.len() as int),
                out@ == orig.subrange(0, k).filter(in_epoch(epoch)),
            decreases certs.len(),
        {
            let cert = certs.remove(0);
            proof {
                assert(orig.subrange(0, k + 1) =~= orig.subrange(0, k).push(orig[k]));
                orig.subrange(0, k).lemma_filter_push(orig[k], in_epoch(epoch));
                assert(certs@ =~= orig.subrange(k + 1, orig.len() as int));
                k = k + 1;
            }
            if cert.certificate.epoch == epoch {
                out.push(cert);
            }
        }
        proof {
            assert(orig.subrange(0, k) =~= orig);
        }
        out
    }

    /// Sets up the wait of one scheduled certificate. `input_object_keys`
    /// is the resolution of its declared inputs, `None` when that failed,
    /// which happens once the transaction has executed and its inputs were
    /// pruned: nothing is scheduled then. Otherwise the certificate waits on
    /// its input keys followed by the keys of the objects it may receive, or
    /// on its own effects.
    pub fn schedule_transaction(
        &self,
        cert: ExecutableTransaction,
        expected_effects_digest: Option<Digest>,
        input_object_keys: Option<Vec<InputKey>>,
        enqueue_time: u64,
    ) -> (r: Option<ReadinessWait>)
        ensures
            input_object_keys is None <==> r is None,
            r matches Some(w) ==> {
                &&& w.certificate == cert
                &&& w.expected_effects_digest == expected_effects_digest
                &&& w.enqueue_time == enqueue_time
                &&& w.receiving_keys@.no_duplicates()
                &&& w.receiving_keys@.to_set() == receiving_keys_of(cert.receiving_objects@)
                &&& w.input_and_receiving_keys@ == input_object_keys->Some_0@ + w.receiving_keys@
                &&& w.digests@ == seq![cert.digest]
            },
    {
        match input_object_keys {
            None => None,
            Some(input_keys) => {
                let receiving_keys = receiving_object_keys(&cert);
                let mut all_keys = input_keys;
                let mut i: usize = 0;
                let ghost start = all_keys@;
                while i < receiving_keys.len()
                    invariant
                        i <= receiving_keys@.len(),
                        all_keys@ == start + receiving_keys@.subrange(0, i as int),
                    decreases receiving_keys.len() - i,
                {
                    all_keys.push(receiving_keys[i]);
                    proof {
                        assert(start + receiving_keys@.subrange(0, i + 1)
                            =~= (start + receiving_keys@.subrange(0, i as int)).push(receiving_keys@[i as int]));
                    }
                    i = i + 1;
                }
                proof {
                    assert(receiving_keys@.subrange(0, i as int) =~= receiving_keys@);
                }
                let mut digests: Vec<Digest> = Vec::new();
                digests.push(cert.digest);
                Some(ReadinessWait {
                    certificate: cert,
                    expected_effects_digest,
                    enqueue_time,
                    input_and_receiving_keys: all_keys,
                    receiving_keys,
                    digests,
                })
            },
        }
    }

    /// Admission control, evaluated before scheduling; it admits everything.
    pub fn check_execution_overload(&self, tx: &ExecutableTransaction) -> (r: Result<(), OverloadError>)
        ensures
            r is Ok,
    {
        Ok(())
    }
}

impl ReadinessWait {
    /// Ends the wait with the first of its two events: when the inputs are
    /// available the certificate is ready for execution at `now`; when the
    /// effects already exist, executing it again would be redundant and
    /// nothing is handed on.
    pub fn resolve(self, event: ReadinessEvent) -> (r: Option<PendingCertificate>)
        ensures
            event is AlreadyExecuted ==> r is None,
            event matches ReadinessEvent::InputsAvailable { now } ==> r matches Some(p) && {
                &&& p.certificate == self.certificate
                &&& p.expected_effects_digest == self.expected_effects_digest
                &&& p.waiting_input_objects@.len() == 0
                &&& p.stats.enqueue_time == self.enqueue_time
                &&& p.stats.ready_time == Some(now)
            },
    {
        match event {
            ReadinessEvent::InputsAvailable { now } => Some(PendingCertificate {
                certificate: self.certificate,
                expected_effects_digest: self.expected_effects_digest,
                waiting_input_objects: Vec::new(),
                stats: PendingCertificateStats { enqueue_time: self.enqueue_time, ready_time: Some(now) },
            }),
            ReadinessEvent::AlreadyExecuted => None,
        }
    }
}

} // verus!
