//! The per-invocation dispatch: initialise on first touch, then run, queue or drain.
use vstd::prelude::*;
use vstd::slice::slice_subrange;
use crate::instruction::{CounterAsyncIx, CounterError, CounterSyncIx};
use crate::state::{drain_outcome, CounterState, QueueAsyncArgs, StateModel, REFILL_AMOUNT};
use crate::store::{KeyModel, QUEUE_CAPACITY};

verus! {

/// Operation tag of an immediate operation.
pub const TAG_SYNC: u8 = 0;
/// Operation tag of an enqueue.
pub const TAG_ENQUEUE: u8 = 1;
/// Operation tag of a drain.
pub const TAG_DRAIN: u8 = 2;

/// The state a first touch leaves: an all-zero region becomes `seq = 1`, no
/// credit, a zero counter and an empty store; any other is left alone.
pub open spec fn initialized(m: StateModel) -> StateModel {
    if m.seq == 0 {
        StateModel { seq: 1, credit: 0, value: 0, queue: Map::<KeyModel, Seq<u8>>::empty() }
    } else {
        m
    }
}

/// An enqueue of an action of discriminant `kind` at epoch `epoch` for `actor`.
pub open spec fn enqueue_spec(m: StateModel, kind: u64, epoch: u64, actor: Seq<u8>) -> (Result<(), CounterError>, StateModel) {
    if m.credit == 0 {
        (Err(CounterError::InsufficientCredits), m)
    } else if m.queue.len() >= QUEUE_CAPACITY {
        (Err(CounterError::CapacityExceeded), m)
    } else {
        (Ok(()), StateModel {
            seq: (m.seq + 1) as u64,
            credit: (m.credit - 1) as u64,
            value: m.value,
            queue: m.queue.insert((epoch, kind, m.seq), actor),
        })
    }
}

/// A drain at epoch `epoch`: the ready actions run in key order.
pub open spec fn drain_spec(m: StateModel, epoch: u64) -> (Result<(), CounterError>, StateModel) {
    let o = drain_outcome(m.queue, m.value, epoch);
    (o.0, StateModel { seq: m.seq, credit: m.credit, value: o.1, queue: o.2 })
}

/// One invocation on a state: its result and the state it leaves behind.
pub open spec fn dispatch(m: StateModel, actor: Option<Seq<u8>>, epoch: u64, data: Seq<u8>) -> (Result<(), CounterError>, StateModel) {
    match actor {
        None => (Err(CounterError::NotEnoughInputs), m),
        Some(a) => {
            let s = initialized(m);
            if data.len() == 0 {
                (Err(CounterError::InvalidInstructionData), s)
            } else if data[0] == TAG_SYNC {
                match CounterSyncIx::decoded(data.drop_first()) {
                    Ok(_) => (Ok(()), StateModel {
                        seq: s.seq,
                        credit: (s.credit + REFILL_AMOUNT) as u64,
                        value: s.value,
                        queue: s.queue,
                    }),
                    Err(e) => (Err(e), s),
                }
            } else if data[0] == TAG_ENQUEUE {
                match CounterAsyncIx::decoded(data.drop_first()) {
                    Ok(ix) => enqueue_spec(s, ix.value(), epoch, a),
                    Err(e) => (Err(e), s),
                }
            } else if data[0] == TAG_DRAIN {
                drain_spec(s, epoch)
            } else {
                (Err(CounterError::InvalidInstructionData), s)
            }
        },
    }
}

/// The actor identifier in the model.
pub open spec fn actor_model(actor: Option<[u8; 32]>) -> Option<Seq<u8>> {
    match actor {
        Some(a) => Some(a@),
        None => None,
    }
}

pub open spec fn same_model(a: StateModel, b: StateModel) -> bool {
    &&& a.seq == b.seq
    &&& a.credit == b.credit
    &&& a.value == b.value
    &&& a.queue =~= b.queue
}

/// Sets up a state that has never been touched: `seq = 1`, no credit, a zero
/// counter and an empty store.
pub fn initialize_state(state: &mut CounterState)
    requires
        old(state).layout(),
    ensures
        final(state).wf(),
        same_model(final(state).model(), initialized(StateModel { seq: 0, ..old(state).model() })),
{
    state.reset();
}

/// The program: one call of `process` per invocation.
pub struct CounterProgram;

impl CounterProgram {
    /// Runs one invocation on a state used in place. `actor` is the identifier of
    /// the invoking actor, if the host supplied one; `epoch` is the host's current
    /// epoch; `instruction_data` is the operation tag followed by its payload.
    pub fn process(
        state: &mut CounterState,
        actor: Option<[u8; 32]>,
        epoch: u64,
        instruction_data: &[u8],
    ) -> (r: Result<(), CounterError>)
        requires
            old(state).layout(),
            old(state).seq_spec() != 0 ==> old(state).wf(),
            instruction_data@.len() > 0 && instruction_data@[0] == TAG_ENQUEUE
                ==> initialized(old(state).model()).seq < u64::MAX,
            instruction_data@.len() > 0 && instruction_data@[0] == TAG_SYNC
                ==> initialized(old(state).model()).credit < u64::MAX,
        ensures
            final(state).layout(),
            final(state).seq_spec() != 0 ==> final(state).wf(),
            r == dispatch(old(state).model(), actor_model(actor), epoch, instruction_data@).0,
            same_model(final(state).model(), dispatch(old(state).model(), actor_model(actor), epoch, instruction_data@).1),
    {
        let user = match actor {
            Some(a) => a,
            None => return Err(CounterError::NotEnoughInputs),
        };
        if state.seq() == 0 {
            initialize_state(state);
        }
        let ghost s = initialized(old(state).model());
        assert(same_model(state.model(), s));
        if instruction_data.len() == 0 {
            return Err(CounterError::InvalidInstructionData);
        }
        let ix_type = instruction_data[0];
        let ix_data = slice_subrange(instruction_data, 1, instruction_data.len());
        assert(ix_data@ =~= instruction_data@.drop_first());
        if ix_type == TAG_SYNC {
            match CounterSyncIx::from_bytes(ix_data) {
                Ok(sync_ix) => sync_ix.process(state),
                Err(e) => Err(e),
            }
        } else if ix_type == TAG_ENQUEUE {
            let async_ix = match CounterAsyncIx::from_bytes(ix_data) {
                Ok(ix) => ix,
                Err(e) => return Err(e),
            };
            let args = QueueAsyncArgs { key: user };
            state.queue_async(async_ix.deref(), &args, epoch)
        } else if ix_type == TAG_DRAIN {
            state.drain_ready_async(epoch)
        } else {
            Err(CounterError::InvalidInstructionData)
        }
    }
}

} // verus!
