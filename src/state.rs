//! The persistent state of one region and the operations of the scheduler on it.
use vstd::prelude::*;
use crate::instruction::{CounterAsyncIx, CounterError, CounterSyncIx, ASYNC_MAX_VARIANT};
use crate::store::{
    is_min_key, key_le, queue_bounded, queue_bytes, queue_entries, queue_from_region, tree_first,
    tree_insert, tree_len, tree_remove, tree_reset, tree_sound, ActionQueue, KeyModel, QueueModel,
    QUEUE_BYTES, QUEUE_CAPACITY,
};
use vstd::bytes::{spec_u64_from_le_bytes, spec_u64_to_le_bytes, u64_from_le_bytes};
use vstd::slice::slice_subrange;

verus! {

/// Credit added by one refill.
pub const REFILL_AMOUNT: u64 = 1;

/// Priority of a queued action: first by epoch (`slot`), then by operation
/// discriminant (`ixn_value`), then by the region's sequence number.
#[derive(Debug, Clone, Copy, PartialEq, Eq, Structural)]
pub struct AsyncIxKey {
    pub slot: u64,
    pub ixn_value: u64,
    pub seq: u64,
}

impl AsyncIxKey {
    pub open spec fn model(self) -> KeyModel {
        (self.slot, self.ixn_value, self.seq)
    }

    /// The key as the store holds it.
    pub fn to_array(&self) -> (r: [u64; 3])
        ensures
            r@ == seq![self.slot, self.ixn_value, self.seq],
    {
        let r = [self.slot, self.ixn_value, self.seq];
        assert(r@ =~= seq![self.slot, self.ixn_value, self.seq]);
        r
    }

    /// The key that the store holds as `a`.
    pub fn from_array(a: [u64; 3]) -> (r: AsyncIxKey)
        ensures
            r.model() == crate::store::key_model(a),
    {
        AsyncIxKey { slot: a[0], ixn_value: a[1], seq: a[2] }
    }
}

/// A node taken from the store: its key and the actor that queued it.
#[derive(Debug, Clone, Copy)]
pub struct QueuedNode {
    pub key: AsyncIxKey,
    pub value: [u8; 32],
}

/// What an async executor learns of the action it runs.
pub struct CounterAsyncIxArgs {
    pub seq: u64,
}

/// What an enqueue records besides the operation: the actor's identifier.
pub struct QueueAsyncArgs {
    pub key: [u8; 32],
}

/// The effect of an async operation with discriminant `kind` on the counter.
pub open spec fn apply_kind(kind: u64, value: u64) -> u64 {
    if kind == 0 {
        if value == 0 { 0 } else { (value - 1) as u64 }
    } else {
        if value == u64::MAX { u64::MAX } else { (value + 1) as u64 }
    }
}

/// An action queued at `epoch` may run once the current epoch exceeds it.
pub open spec fn is_ready(key: KeyModel, current: u64) -> bool {
    key.0 + 1 <= current
}

/// The least key of `q` (meaningful when `q` is not empty).
pub open spec fn min_key(q: QueueModel) -> KeyModel {
    choose|k: KeyModel| is_min_key(q, k)
}

/// What a drain at epoch `current` does to a store `q` and a counter `value`: it
/// runs the ready actions in key order and stops at the first that is not ready.
/// A ready action whose kind is not a valid async discriminant stops it with an
/// error, and is left in place.
pub open spec fn drain_outcome(q: QueueModel, value: u64, current: u64) -> (Result<(), CounterError>, u64, QueueModel)
    decreases q.len(),
{
    if q.dom().finite() && q.contains_key(min_key(q)) && is_ready(min_key(q), current) {
        if min_key(q).1 > ASYNC_MAX_VARIANT {
            (Err(CounterError::InvalidInstructionData), value, q)
        } else {
            drain_outcome(q.remove(min_key(q)), apply_kind(min_key(q).1, value), current)
        }
    } else {
        (Ok(()), value, q)
    }
}

/// The least key is the only one: two least keys of one store are equal.
pub proof fn lemma_min_key_unique(q: QueueModel, a: KeyModel, b: KeyModel)
    requires
        is_min_key(q, a),
        is_min_key(q, b),
    ensures
        a == b,
{
    assert(key_le(a, b));
    assert(key_le(b, a));
}

/// Bytes before the store: `seq | credit | value`, each a little-endian `u64`.
pub const HEADER_LEN: usize = 24;

/// Total bytes of a state region.
pub const STATE_LEN: usize = HEADER_LEN + QUEUE_BYTES;

/// The `u64` stored little-endian at `bytes[at..at + 8]`.
pub open spec fn field_at(bytes: Seq<u8>, at: int) -> u64 {
    spec_u64_from_le_bytes(bytes.subrange(at, at + 8))
}

/// `bytes` with the eight bytes at `at` replaced by the encoding of `v`.
pub open spec fn with_field(bytes: Seq<u8>, at: int, v: u64) -> Seq<u8> {
    bytes.subrange(0, at) + spec_u64_to_le_bytes(v) + bytes.subrange(at + 8, bytes.len() as int)
}

/// Writing one header field leaves the other two as they were.
proof fn lemma_with_field(bytes: Seq<u8>, at: int, v: u64)
    requires
        bytes.len() == HEADER_LEN,
        at == 0 || at == 8 || at == 16,
    ensures
        with_field(bytes, at, v).len() == HEADER_LEN,
        field_at(with_field(bytes, at, v), at) == v,
        forall|f: int| (f == 0 || f == 8 || f == 16) && f != at
            ==> #[trigger] field_at(with_field(bytes, at, v), f) == field_at(bytes, f),
{
    vstd::bytes::lemma_auto_spec_u64_to_from_le_bytes();
    let n = with_field(bytes, at, v);
    assert(n.subrange(at, at + 8) =~= spec_u64_to_le_bytes(v));
    assert forall|f: int| (f == 0 || f == 8 || f == 16) && f != at
        implies #[trigger] field_at(n, f) == field_at(bytes, f) by {
        assert(n.subrange(f, f + 8) =~= bytes.subrange(f, f + 8));
    }
}

/// Stores `v` little-endian at `bytes[at..at + 8]`.
fn write_u64_le(bytes: &mut [u8], at: usize, v: u64)
    requires
        at + 8 <= old(bytes)@.len(),
    ensures
        final(bytes)@ == with_field(old(bytes)@, at as int, v),
{
    proof {
        vstd::bytes::spec_u64_to_le_bytes_to_open(v);
    }
    bytes[at] = (v & 0xff) as u8;
    bytes[at + 1] = ((v >> 8) & 0xff) as u8;
    bytes[at + 2] = ((v >> 16) & 0xff) as u8;
    bytes[at + 3] = ((v >> 24) & 0xff) as u8;
    bytes[at + 4] = ((v >> 32) & 0xff) as u8;
    bytes[at + 5] = ((v >> 40) & 0xff) as u8;
    bytes[at + 6] = ((v >> 48) & 0xff) as u8;
    bytes[at + 7] = ((v >> 56) & 0xff) as u8;
    assert(bytes@ =~= with_field(old(bytes)@, at as int, v));
}

/// The state of one region, used in place: the header fields and the store are
/// read and written in the region's own bytes.
pub struct CounterState<'a> {
    /// `seq | credit | value`: the first `HEADER_LEN` bytes of the region.
    pub header: &'a mut [u8],
    /// The rest of the region: the ordered store.
    pub async_queue: ActionQueue<'a>,
}

/// The state in the model.
pub struct StateModel {
    pub seq: u64,
    pub credit: u64,
    pub value: u64,
    pub queue: QueueModel,
}

impl<'a> CounterState<'a> {
    /// Sequence number for the next queued action; 0 means not yet initialised.
    pub open spec fn seq_spec(&self) -> u64 {
        field_at(self.header@, 0)
    }

    /// Credit: how many more actions may be queued.
    pub open spec fn credit_spec(&self) -> u64 {
        field_at(self.header@, 8)
    }

    /// The tracked quantity.
    pub open spec fn value_spec(&self) -> u64 {
        field_at(self.header@, 16)
    }

    pub open spec fn queue(&self) -> QueueModel {
        queue_entries(self.async_queue)
    }

    /// The region's bytes, as they stand.
    pub open spec fn bytes(&self) -> Seq<u8> {
        self.header@ + queue_bytes(self.async_queue)
    }

    /// Both parts of the region hold the same bytes as in `other`.
    pub open spec fn same_bytes(&self, other: CounterState) -> bool {
        &&& self.header@ == other.header@
        &&& queue_bytes(self.async_queue) == queue_bytes(other.async_queue)
    }

    pub open spec fn model(&self) -> StateModel {
        StateModel {
            seq: self.seq_spec(),
            credit: self.credit_spec(),
            value: self.value_spec(),
            queue: self.queue(),
        }
    }

    /// The header has its fixed length.
    pub open spec fn layout(&self) -> bool {
        self.header@.len() == HEADER_LEN
    }

    /// The store is a sound tree within capacity, and every queued sequence number
    /// was handed out already.
    pub open spec fn wf(&self) -> bool {
        &&& self.layout()
        &&& tree_sound(queue_bytes(self.async_queue))
        &&& queue_bounded(self.queue())
        &&& forall|k: KeyModel| #[trigger] self.queue().contains_key(k) ==> k.2 < self.seq_spec()
    }

    /// Uses the bytes of a region in place as a state. The region must be exactly
    /// `STATE_LEN` bytes, and aligned so that its store can be used in place.
    pub fn from_bytes(region: &'a mut [u8]) -> (r: Result<CounterState<'a>, CounterError>)
        ensures
            old(region)@.len() != STATE_LEN
                ==> r == Err::<CounterState<'a>, CounterError>(CounterError::InvalidAccountData),
            match r {
                Ok(s) => s.layout() && s.bytes() == old(region)@,
                Err(e) => e == CounterError::InvalidAccountData,
            },
    {
        if region.len() != STATE_LEN {
            return Err(CounterError::InvalidAccountData);
        }
        let (header, tail) = region.split_at_mut(HEADER_LEN);
        match queue_from_region(tail) {
            Some(q) => {
                let s = CounterState { header, async_queue: q };
                assert(s.bytes() =~= old(region)@);
                Ok(s)
            },
            None => Err(CounterError::InvalidAccountData),
        }
    }

    pub fn seq(&self) -> (r: u64)
        requires
            self.layout(),
        ensures
            r == self.seq_spec(),
    {
        u64_from_le_bytes(slice_subrange(&*self.header, 0, 8))
    }

    pub fn num_actions(&self) -> (r: u64)
        requires
            self.layout(),
        ensures
            r == self.credit_spec(),
    {
        u64_from_le_bytes(slice_subrange(&*self.header, 8, 16))
    }

    pub fn counter(&self) -> (r: u64)
        requires
            self.layout(),
        ensures
            r == self.value_spec(),
    {
        u64_from_le_bytes(slice_subrange(&*self.header, 16, 24))
    }

    fn set_field(&mut self, at: usize, v: u64)
        requires
            old(self).layout(),
            at == 0 || at == 8 || at == 16,
        ensures
            final(self).layout(),
            final(self).async_queue == old(self).async_queue,
            field_at(final(self).header@, at as int) == v,
            forall|f: int| (f == 0 || f == 8 || f == 16) && f != at
                ==> #[trigger] field_at(final(self).header@, f) == field_at(old(self).header@, f),
    {
        proof {
            lemma_with_field(self.header@, at as int, v);
        }
        write_u64_le(self.header, at, v);
    }

    pub(crate) fn set_seq(&mut self, v: u64)
        requires
            old(self).layout(),
        ensures
            final(self).layout(),
            final(self).async_queue == old(self).async_queue,
            final(self).seq_spec() == v,
            final(self).credit_spec() == old(self).credit_spec(),
            final(self).value_spec() == old(self).value_spec(),
    {
        self.set_field(0, v);
        assert(field_at(self.header@, 8) == field_at(old(self).header@, 8));
        assert(field_at(self.header@, 16) == field_at(old(self).header@, 16));
    }

    pub(crate) fn set_num_actions(&mut self, v: u64)
        requires
            old(self).layout(),
        ensures
            final(self).layout(),
            final(self).async_queue == old(self).async_queue,
            final(self).credit_spec() == v,
            final(self).seq_spec() == old(self).seq_spec(),
            final(self).value_spec() == old(self).value_spec(),
    {
        self.set_field(8, v);
        assert(field_at(self.header@, 0) == field_at(old(self).header@, 0));
        assert(field_at(self.header@, 16) == field_at(old(self).header@, 16));
    }

    pub(crate) fn set_counter(&mut self, v: u64)
        requires
            old(self).layout(),
        ensures
            final(self).layout(),
            final(self).async_queue == old(self).async_queue,
            final(self).value_spec() == v,
            final(self).seq_spec() == old(self).seq_spec(),
            final(self).credit_spec() == old(self).credit_spec(),
    {
        self.set_field(16, v);
        assert(field_at(self.header@, 0) == field_at(old(self).header@, 0));
        assert(field_at(self.header@, 8) == field_at(old(self).header@, 8));
    }

    /// Makes the region a fresh state: `seq = 1`, no credit, a zero counter and an
    /// empty store.
    pub(crate) fn reset(&mut self)
        requires
            old(self).layout(),
        ensures
            final(self).wf(),
            final(self).seq_spec() == 1,
            final(self).credit_spec() == 0,
            final(self).value_spec() == 0,
            final(self).queue().dom() == Set::<KeyModel>::empty(),
    {
        tree_reset(&mut self.async_queue);
        self.set_seq(1);
        self.set_num_actions(0);
        self.set_counter(0);
    }

    /// Number of queued actions.
    pub fn queue_len(&self) -> (r: usize)
        requires
            self.wf(),
        ensures
            r == self.queue().len(),
    {
        tree_len(&self.async_queue)
    }

    /// The action that runs next: the one with the least key.
    pub fn peek_async(&self) -> (r: Option<QueuedNode>)
        requires
            self.wf(),
        ensures
            match r {
                Some(n) => {
                    &&& is_min_key(self.queue(), n.key.model())
                    &&& self.queue()[n.key.model()] == n.value@
                },
                None => self.queue().dom() == Set::<KeyModel>::empty(),
            },
    {
        match tree_first(&self.async_queue) {
            Some((k, v)) => Some(QueuedNode { key: AsyncIxKey::from_array(k), value: v }),
            None => None,
        }
    }

    /// Takes out the action with the least key, the one `peek_async` shows.
    pub fn pop_async(&mut self) -> (r: Option<QueuedNode>)
        requires
            old(self).wf(),
        ensures
            final(self).wf(),
            final(self).header == old(self).header,
            match r {
                Some(n) => {
                    &&& is_min_key(old(self).queue(), n.key.model())
                    &&& old(self).queue()[n.key.model()] == n.value@
                    &&& final(self).queue() == old(self).queue().remove(n.key.model())
                },
                None => {
                    &&& old(self).queue().dom() == Set::<KeyModel>::empty()
                    &&& final(self).same_bytes(*old(self))
                },
            },
    {
        let node = match self.peek_async() {
            Some(n) => n,
            None => return None,
        };
        let k = node.key.to_array();
        proof {
            assert(crate::store::key_model(k) == node.key.model());
        }
        let removed = tree_remove(&mut self.async_queue, k);
        assert(removed.is_some());
        Some(node)
    }

    /// Queues `ixn` at epoch `slot` for the actor in `args`, spending one credit.
    pub fn queue_async(&mut self, ixn: &CounterAsyncIx, args: &QueueAsyncArgs, slot: u64) -> (r: Result<(), CounterError>)
        requires
            old(self).wf(),
            old(self).seq_spec() < u64::MAX,
        ensures
            final(self).wf(),
            final(self).value_spec() == old(self).value_spec(),
            old(self).credit_spec() == 0 ==> r == Err::<(), CounterError>(CounterError::InsufficientCredits),
            old(self).credit_spec() > 0 && old(self).queue().len() >= QUEUE_CAPACITY
                ==> r == Err::<(), CounterError>(CounterError::CapacityExceeded),
            r == Ok::<(), CounterError>(()) <==> old(self).credit_spec() > 0 && old(self).queue().len() < QUEUE_CAPACITY,
            r.is_ok() ==> {
                &&& final(self).seq_spec() == old(self).seq_spec() + 1
                &&& final(self).credit_spec() == old(self).credit_spec() - 1
                &&& !old(self).queue().contains_key((slot, ixn.value(), old(self).seq_spec()))
                &&& final(self).queue() == old(self).queue().insert(
                    (slot, ixn.value(), old(self).seq_spec()),
                    args.key@,
                )
                &&& final(self).queue().len() == old(self).queue().len() + 1
            },
            r.is_err() ==> final(self).same_bytes(*old(self)),
    {
        if self.num_actions() == 0 {
            return Err(CounterError::InsufficientCredits);
        }
        let seq = self.seq();
        let key = AsyncIxKey { slot, ixn_value: ixn.as_u64(), seq };
        let k = key.to_array();
        proof {
            assert(crate::store::key_model(k) == key.model());
        }
        if !tree_insert(&mut self.async_queue, k, args.key) {
            return Err(CounterError::CapacityExceeded);
        }
        let credit = self.num_actions();
        self.set_seq(seq + 1);
        self.set_num_actions(credit - 1);
        proof {
            let q = self.queue();
            assert(q.dom() == old(self).queue().dom().insert(key.model()));
            assert(q.len() == old(self).queue().len() + 1);
        }
        Ok(())
    }

    /// Whether the least queued action exists and is ready at epoch `slot`.
    pub fn has_pending_async(&self, slot: u64) -> (r: bool)
        requires
            self.wf(),
        ensures
            r <==> exists|k: KeyModel| is_min_key(self.queue(), k) && is_ready(k, slot),
    {
        match self.peek_async() {
            Some(n) => {
                let r = n.key.slot < slot;
                proof {
                    if r {
                        assert(is_min_key(self.queue(), n.key.model()) && is_ready(n.key.model(), slot));
                    }
                    if !r {
                        assert forall|k: KeyModel| is_min_key(self.queue(), k) implies !is_ready(k, slot) by {
                            lemma_min_key_unique(self.queue(), k, n.key.model());
                        }
                    }
                }
                r
            },
            None => {
                assert forall|k: KeyModel| !is_min_key(self.queue(), k) by {
                    assert(!self.queue().dom().contains(k));
                }
                false
            },
        }
    }

    /// Runs the action with the least key, if any, and takes it out of the store.
    /// A kind that is not a valid async discriminant fails, and nothing changes.
    pub fn process_next_async(&mut self) -> (r: Result<(), CounterError>)
        requires
            old(self).wf(),
        ensures
            final(self).wf(),
            final(self).seq_spec() == old(self).seq_spec(),
            final(self).credit_spec() == old(self).credit_spec(),
            old(self).queue().dom() == Set::<KeyModel>::empty() ==> {
                &&& r == Ok::<(), CounterError>(())
                &&& final(self).same_bytes(*old(self))
            },
            old(self).queue().dom() != Set::<KeyModel>::empty() ==> {
                &&& is_min_key(old(self).queue(), min_key(old(self).queue()))
                &&& min_key(old(self).queue()).1 > ASYNC_MAX_VARIANT ==> {
                    &&& r == Err::<(), CounterError>(CounterError::InvalidInstructionData)
                    &&& final(self).same_bytes(*old(self))
                }
                &&& min_key(old(self).queue()).1 <= ASYNC_MAX_VARIANT ==> {
                    &&& r == Ok::<(), CounterError>(())
                    &&& final(self).queue() == old(self).queue().remove(min_key(old(self).queue()))
                    &&& final(self).value_spec() == apply_kind(min_key(old(self).queue()).1, old(self).value_spec())
                }
            },
    {
        let ghost q = self.queue();
        let head = match self.peek_async() {
            Some(n) => n,
            None => return Ok(()),
        };
        proof {
            lemma_min_key_unique(q, head.key.model(), min_key(q));
            assert(q.dom().contains(head.key.model()));
        }
        if head.key.ixn_value > ASYNC_MAX_VARIANT {
            return Err(CounterError::InvalidInstructionData);
        }
        let next = match self.pop_async() {
            Some(n) => n,
            None => return Ok(()),
        };
        proof {
            lemma_min_key_unique(q, next.key.model(), min_key(q));
        }
        let ixn = CounterAsyncIx::from_u64_unchecked(next.key.ixn_value);
        let args = CounterAsyncIxArgs { seq: next.key.seq };
        ixn.process(&args, self)
    }

    /// Runs, in key order, every queued action that is ready at epoch `slot`,
    /// stopping at the first that is not, or at one whose kind is invalid.
    pub fn drain_ready_async(&mut self, slot: u64) -> (r: Result<(), CounterError>)
        requires
            old(self).wf(),
        ensures
            final(self).wf(),
            final(self).seq_spec() == old(self).seq_spec(),
            final(self).credit_spec() == old(self).credit_spec(),
            (r, final(self).value_spec(), final(self).queue())
                == drain_outcome(old(self).queue(), old(self).value_spec(), slot),
            forall|k: KeyModel| !is_ready(k, slot) ==> {
                &&& (#[trigger] final(self).queue().contains_key(k) <==> old(self).queue().contains_key(k))
                &&& final(self).queue().contains_key(k) ==> final(self).queue()[k] == old(self).queue()[k]
            },
            r.is_ok() ==> forall|k: KeyModel| #[trigger] final(self).queue().contains_key(k) ==> !is_ready(k, slot),
    {
        while self.has_pending_async(slot)
            invariant
                self.wf(),
                self.seq_spec() == old(self).seq_spec(),
                self.credit_spec() == old(self).credit_spec(),
                drain_outcome(self.queue(), self.value_spec(), slot)
                    == drain_outcome(old(self).queue(), old(self).value_spec(), slot),
                forall|k: KeyModel| !is_ready(k, slot) ==> {
                    &&& (#[trigger] self.queue().contains_key(k) <==> old(self).queue().contains_key(k))
                    &&& self.queue().contains_key(k) ==> self.queue()[k] == old(self).queue()[k]
                },
            decreases self.queue().len(),
        {
            let ghost q = self.queue();
            let ghost v = self.value_spec();
            proof {
                let m = min_key(q);
                let k = choose|k: KeyModel| is_min_key(q, k) && is_ready(k, slot);
                lemma_min_key_unique(q, k, m);
                assert(q.dom().contains(m));
                assert(q.dom() != Set::<KeyModel>::empty());
            }
            let r = self.process_next_async();
            if r.is_err() {
                proof {
                    let m = min_key(q);
                    assert(self.queue() == q);
                    assert(m.1 > ASYNC_MAX_VARIANT);
                    assert(drain_outcome(q, v, slot) == (r, v, q));
                }
                return r;
            }
            proof {
                let m = min_key(q);
                assert(drain_outcome(q, v, slot) == drain_outcome(self.queue(), self.value_spec(), slot));
                assert(self.queue().len() < q.len());
            }
        }
        proof {
            let q = self.queue();
            if q.dom().finite() && q.contains_key(min_key(q)) {
                let m = min_key(q);
                crate::store::lemma_min_exists(q);
                assert(is_min_key(q, m));
                assert(!is_ready(m, slot));
                assert forall|k: KeyModel| #[trigger] q.contains_key(k) implies !is_ready(k, slot) by {
                    assert(key_le(m, k));
                }
            } else {
                assert forall|k: KeyModel| !q.contains_key(k) by {
                    if q.contains_key(k) {
                        crate::store::lemma_min_exists(q);
                    }
                }
            }
        }
        Ok(())
    }
}

impl CounterSyncIx {
    /// Runs the immediate operation on `state`.
    pub fn process(&self, state: &mut CounterState) -> (r: Result<(), CounterError>)
        requires
            old(state).layout(),
            old(state).credit_spec() <= u64::MAX - REFILL_AMOUNT,
        ensures
            r == Ok::<(), CounterError>(()),
            final(state).layout(),
            final(state).credit_spec() == old(state).credit_spec() + REFILL_AMOUNT,
            final(state).seq_spec() == old(state).seq_spec(),
            final(state).value_spec() == old(state).value_spec(),
            final(state).async_queue == old(state).async_queue,
    {
        match self {
            CounterSyncIx::RefillActions => {
                let credit = state.num_actions();
                state.set_num_actions(credit + REFILL_AMOUNT);
            },
        }
        Ok(())
    }
}

impl CounterAsyncIx {
    /// Runs the deferred operation on `state`: a saturating step of the counter.
    pub fn process(&self, args: &CounterAsyncIxArgs, state: &mut CounterState) -> (r: Result<(), CounterError>)
        requires
            old(state).layout(),
        ensures
            r == Ok::<(), CounterError>(()),
            final(state).layout(),
            final(state).value_spec() == apply_kind(self.value(), old(state).value_spec()),
            final(state).seq_spec() == old(state).seq_spec(),
            final(state).credit_spec() == old(state).credit_spec(),
            final(state).async_queue == old(state).async_queue,
    {
        let value = state.counter();
        match self {
            CounterAsyncIx::Increment => {
                state.set_counter(value.saturating_add(1));
            },
            CounterAsyncIx::Decrement => {
                state.set_counter(value.saturating_sub(1));
            },
        }
        Ok(())
    }
}

} // verus!
