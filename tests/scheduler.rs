use counter::instruction::{CounterAsyncIx, CounterError, CounterSyncIx};
use counter::program::{initialize_state, CounterProgram};
use counter::state::{CounterState, QueueAsyncArgs, STATE_LEN};

fn region() -> Vec<u8> {
    vec![0u8; STATE_LEN]
}

fn fresh(region: &mut Vec<u8>) -> CounterState<'_> {
    let mut state = CounterState::from_bytes(region).unwrap();
    initialize_state(&mut state);
    state
}

fn refill(state: &mut CounterState, times: usize) {
    for _ in 0..times {
        CounterSyncIx::RefillActions.process(state).unwrap();
    }
}

fn payload(tag: u8, discriminant: u64) -> Vec<u8> {
    let mut data = vec![tag];
    data.extend_from_slice(&discriminant.to_le_bytes());
    data
}

#[test]
fn test_priority_queue() {
    let mut bytes = region();
    let mut state = fresh(&mut bytes);
    // Each enqueue spends a credit.
    refill(&mut state, 4);

    // Queue items with different priorities
    state.queue_async(&CounterAsyncIx::Increment, &QueueAsyncArgs { key: [0; 32] }, 0).unwrap();
    state.queue_async(&CounterAsyncIx::Decrement, &QueueAsyncArgs { key: [0; 32] }, 0).unwrap();
    state.queue_async(&CounterAsyncIx::Increment, &QueueAsyncArgs { key: [0; 32] }, 0).unwrap();
    state.queue_async(&CounterAsyncIx::Decrement, &QueueAsyncArgs { key: [0; 32] }, 0).unwrap();

    assert_eq!(state.queue_len(), 4);

    // Pop should give us items in priority order
    for _ in 0..2 {
        match CounterAsyncIx::from_u64_unchecked(state.pop_async().unwrap().key.ixn_value) {
            CounterAsyncIx::Decrement => {}
            _ => panic!("Expected decerment"),
        }
    }

    for _ in 0..2 {
        match CounterAsyncIx::from_u64_unchecked(state.pop_async().unwrap().key.ixn_value) {
            CounterAsyncIx::Increment => {}
            _ => panic!("Expected increment"),
        }
    }
}

#[test]
fn enqueue_spends_credit_then_fails_without_it() {
    let mut bytes = region();
    let mut state = CounterState::from_bytes(&mut bytes).unwrap();
    let user = [7u8; 32];
    CounterProgram::process(&mut state, Some(user), 5, &payload(0, 0)).unwrap();
    assert_eq!(state.num_actions(), 1);
    assert_eq!(CounterProgram::process(&mut state, Some(user), 5, &payload(1, 1)), Ok(()));
    assert_eq!(state.num_actions(), 0);
    assert_eq!(
        CounterProgram::process(&mut state, Some(user), 5, &payload(1, 1)),
        Err(CounterError::InsufficientCredits)
    );
    assert_eq!(state.num_actions(), 0);
    assert_eq!(state.queue_len(), 1);
}

#[test]
fn drain_waits_one_epoch_then_runs_in_key_order() {
    let mut bytes = region();
    let mut state = CounterState::from_bytes(&mut bytes).unwrap();
    let user = [1u8; 32];
    CounterProgram::process(&mut state, Some(user), 5, &payload(0, 0)).unwrap();
    CounterProgram::process(&mut state, Some(user), 5, &payload(0, 0)).unwrap();
    CounterProgram::process(&mut state, Some(user), 5, &payload(1, 0)).unwrap();
    CounterProgram::process(&mut state, Some(user), 5, &payload(1, 1)).unwrap();

    CounterProgram::process(&mut state, Some(user), 5, &[2]).unwrap();
    assert_eq!(state.queue_len(), 2);
    assert_eq!(state.counter(), 0);

    // Decrement at zero stays zero, then the increment: 1. The other order gives 0.
    CounterProgram::process(&mut state, Some(user), 6, &[2]).unwrap();
    assert_eq!(state.queue_len(), 0);
    assert_eq!(state.counter(), 1);
}

#[test]
fn short_payload_is_invalid() {
    assert_eq!(
        CounterAsyncIx::from_bytes(&[1, 0, 0, 0]).err(),
        Some(CounterError::InvalidInstructionData)
    );
    assert_eq!(CounterSyncIx::from_bytes(&[0, 0, 0, 0]), Err(CounterError::InvalidInstructionData));
    let mut bytes = region();
    let mut state = CounterState::from_bytes(&mut bytes).unwrap();
    assert_eq!(
        CounterProgram::process(&mut state, Some([0; 32]), 1, &[1, 1, 0, 0, 0]),
        Err(CounterError::InvalidInstructionData)
    );
}

#[test]
fn full_store_rejects_insert_and_stays_unchanged() {
    let mut bytes = region();
    let mut state = fresh(&mut bytes);
    refill(&mut state, 8193);
    for _ in 0..8192 {
        state.queue_async(&CounterAsyncIx::Increment, &QueueAsyncArgs { key: [2; 32] }, 3).unwrap();
    }
    assert_eq!(state.queue_len(), 8192);
    let seq = state.seq();
    let head = state.peek_async().unwrap();
    assert_eq!(
        state.queue_async(&CounterAsyncIx::Decrement, &QueueAsyncArgs { key: [2; 32] }, 0),
        Err(CounterError::CapacityExceeded)
    );
    assert_eq!(state.queue_len(), 8192);
    assert_eq!(state.seq(), seq);
    assert_eq!(state.num_actions(), 1);
    assert_eq!(state.peek_async().unwrap().key, head.key);
}

#[test]
fn lower_kind_runs_first_within_an_epoch() {
    let mut bytes = region();
    let mut state = fresh(&mut bytes);
    refill(&mut state, 3);
    state.queue_async(&CounterAsyncIx::Increment, &QueueAsyncArgs { key: [3; 32] }, 9).unwrap();
    state.queue_async(&CounterAsyncIx::Decrement, &QueueAsyncArgs { key: [4; 32] }, 9).unwrap();
    state.queue_async(&CounterAsyncIx::Decrement, &QueueAsyncArgs { key: [5; 32] }, 8).unwrap();
    let first = state.pop_async().unwrap();
    assert_eq!((first.key.slot, first.key.ixn_value), (8, 0));
    assert_eq!(first.value, [5; 32]);
    let second = state.pop_async().unwrap();
    assert_eq!((second.key.slot, second.key.ixn_value), (9, 0));
    assert_eq!(second.value, [4; 32]);
    let third = state.pop_async().unwrap();
    assert_eq!((third.key.slot, third.key.ixn_value), (9, 1));
    assert_eq!(third.value, [3; 32]);
    assert!(state.pop_async().is_none());
}

#[test]
fn sequence_numbers_increase() {
    let mut bytes = region();
    let mut state = CounterState::from_bytes(&mut bytes).unwrap();
    let user = [0u8; 32];
    CounterProgram::process(&mut state, Some(user), 2, &payload(0, 0)).unwrap();
    assert_eq!(state.seq(), 1);
    refill(&mut state, 2);
    CounterProgram::process(&mut state, Some(user), 2, &payload(1, 1)).unwrap();
    CounterProgram::process(&mut state, Some(user), 2, &payload(1, 1)).unwrap();
    CounterProgram::process(&mut state, Some(user), 2, &payload(1, 1)).unwrap();
    assert_eq!(state.seq(), 4);
    let seqs: Vec<u64> = (0..3).map(|_| state.pop_async().unwrap().key.seq).collect();
    assert_eq!(seqs, vec![1, 2, 3]);
}

#[test]
fn credit_moves_only_by_refill_and_enqueue() {
    let mut bytes = region();
    let mut state = CounterState::from_bytes(&mut bytes).unwrap();
    let user = [0u8; 32];
    CounterProgram::process(&mut state, Some(user), 1, &payload(0, 0)).unwrap();
    CounterProgram::process(&mut state, Some(user), 1, &payload(0, 0)).unwrap();
    assert_eq!(state.num_actions(), 2);
    CounterProgram::process(&mut state, Some(user), 1, &payload(1, 0)).unwrap();
    assert_eq!(state.num_actions(), 1);
    CounterProgram::process(&mut state, Some(user), 4, &[2]).unwrap();
    assert_eq!(state.num_actions(), 1);
    assert_eq!(
        CounterProgram::process(&mut state, Some(user), 4, &payload(1, 2)),
        Err(CounterError::InvalidInstructionData)
    );
    assert_eq!(state.num_actions(), 1);
}

#[test]
fn action_is_eligible_from_the_next_epoch() {
    let mut bytes = region();
    let mut state = fresh(&mut bytes);
    refill(&mut state, 1);
    state.queue_async(&CounterAsyncIx::Increment, &QueueAsyncArgs { key: [0; 32] }, 10).unwrap();
    assert!(!state.has_pending_async(9));
    assert!(!state.has_pending_async(10));
    state.drain_ready_async(10).unwrap();
    assert_eq!(state.counter(), 0);
    assert!(state.has_pending_async(11));
    state.drain_ready_async(11).unwrap();
    assert_eq!(state.counter(), 1);
    assert!(!state.has_pending_async(11));
}

#[test]
fn counter_saturates_at_both_ends() {
    let mut bytes = region();
    {
        let mut state = fresh(&mut bytes);
        refill(&mut state, 2);
        state.queue_async(&CounterAsyncIx::Decrement, &QueueAsyncArgs { key: [0; 32] }, 0).unwrap();
        state.process_next_async().unwrap();
        assert_eq!(state.counter(), 0);
    }
    bytes[16..24].copy_from_slice(&u64::MAX.to_le_bytes());
    let mut state = CounterState::from_bytes(&mut bytes).unwrap();
    state.queue_async(&CounterAsyncIx::Increment, &QueueAsyncArgs { key: [0; 32] }, 0).unwrap();
    state.process_next_async().unwrap();
    assert_eq!(state.counter(), u64::MAX);
}

#[test]
fn process_next_on_empty_store_does_nothing() {
    let mut bytes = region();
    let mut state = fresh(&mut bytes);
    assert_eq!(state.process_next_async(), Ok(()));
    assert_eq!(state.counter(), 0);
    assert!(state.peek_async().is_none());
    assert!(!state.has_pending_async(u64::MAX));
}

#[test]
fn dispatch_rejects_bad_tags_and_missing_actor() {
    let mut bytes = region();
    let mut state = CounterState::from_bytes(&mut bytes).unwrap();
    assert_eq!(
        CounterProgram::process(&mut state, None, 1, &payload(0, 0)),
        Err(CounterError::NotEnoughInputs)
    );
    assert_eq!(state.seq(), 0);
    assert_eq!(
        CounterProgram::process(&mut state, Some([0; 32]), 1, &[3]),
        Err(CounterError::InvalidInstructionData)
    );
    assert_eq!(state.seq(), 1);
    assert_eq!(
        CounterProgram::process(&mut state, Some([0; 32]), 1, &[]),
        Err(CounterError::InvalidInstructionData)
    );
    assert_eq!(
        CounterProgram::process(&mut state, Some([0; 32]), 1, &payload(0, 1)),
        Err(CounterError::InvalidInstructionData)
    );
    assert_eq!(CounterProgram::process(&mut state, Some([0; 32]), 1, &[2]), Ok(()));
}
