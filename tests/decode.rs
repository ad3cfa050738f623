use counter::instruction::{CounterAsyncIx, CounterError, CounterSyncIx, OwnedOrBorrowed, OwnedOrBorrowedMut};
use counter::program::{initialize_state, CounterProgram};
use counter::state::{AsyncIxKey, CounterState, QueueAsyncArgs, HEADER_LEN, STATE_LEN};
use counter::store::{ActionTree, QUEUE_BYTES};

#[test]
fn async_discriminants_decode() {
    let dec = CounterAsyncIx::from_bytes(&[0, 0, 0, 0, 0, 0, 0, 0, 9]).unwrap();
    assert_eq!(*dec.deref(), CounterAsyncIx::Decrement);
    let one = 1u64.to_le_bytes();
    let inc = CounterAsyncIx::from_bytes(&one).unwrap();
    assert_eq!(*inc.deref(), CounterAsyncIx::Increment);
    assert_eq!(inc.deref().as_u64(), 1);
    assert_eq!(
        CounterAsyncIx::from_bytes(&2u64.to_le_bytes()).err(),
        Some(CounterError::InvalidInstructionData)
    );
    assert_eq!(
        CounterAsyncIx::from_bytes(&(1u64 << 8).to_le_bytes()).err(),
        Some(CounterError::InvalidInstructionData)
    );
    assert_eq!(
        CounterAsyncIx::from_bytes(&(1u64 << 56).to_le_bytes()).err(),
        Some(CounterError::InvalidInstructionData)
    );
}

#[test]
fn sync_discriminants_decode_and_probe() {
    assert_eq!(CounterSyncIx::from_bytes(&0u64.to_le_bytes()), Ok(CounterSyncIx::RefillActions));
    assert_eq!(CounterSyncIx::from_bytes(&1u64.to_le_bytes()), Err(CounterError::InvalidInstructionData));
    assert_eq!(CounterSyncIx::probe(&[0]), Some(CounterSyncIx::RefillActions));
    assert_eq!(CounterSyncIx::probe(&[1]), None);
    assert_eq!(CounterSyncIx::probe(&[]), None);
}

#[test]
fn borrowed_and_owned_read_alike() {
    let v = CounterAsyncIx::Increment;
    let b: OwnedOrBorrowed<CounterAsyncIx> = OwnedOrBorrowed::Borrowed(&v);
    let o: OwnedOrBorrowed<CounterAsyncIx> = OwnedOrBorrowed::Owned(v);
    assert_eq!(b.deref(), o.deref());
}

#[test]
fn key_array_round_trip() {
    let k = AsyncIxKey { slot: 4, ixn_value: 1, seq: 77 };
    assert_eq!(k.to_array(), [4, 1, 77]);
    assert_eq!(AsyncIxKey::from_array([4, 1, 77]), k);
}

#[test]
fn region_length_is_checked() {
    assert_eq!(std::mem::size_of::<ActionTree>(), QUEUE_BYTES);
    assert_eq!(STATE_LEN, HEADER_LEN + QUEUE_BYTES);
    let mut short = [0u8; 24];
    assert_eq!(CounterState::from_bytes(&mut short).err(), Some(CounterError::InvalidAccountData));
    let mut long = vec![0u8; STATE_LEN + 1];
    assert_eq!(CounterState::from_bytes(&mut long).err(), Some(CounterError::InvalidAccountData));
}

#[test]
fn state_lives_in_the_region_and_survives_reload() {
    let mut bytes = vec![0u8; STATE_LEN];
    {
        let mut state = CounterState::from_bytes(&mut bytes).unwrap();
        initialize_state(&mut state);
        CounterProgram::process(&mut state, Some([9; 32]), 3, &[0, 0, 0, 0, 0, 0, 0, 0, 0]).unwrap();
        CounterProgram::process(&mut state, Some([9; 32]), 3, &[0, 0, 0, 0, 0, 0, 0, 0, 0]).unwrap();
        state.queue_async(&CounterAsyncIx::Increment, &QueueAsyncArgs { key: [9; 32] }, 3).unwrap();
    }
    assert_eq!(&bytes[0..8], &2u64.to_le_bytes());
    assert_eq!(&bytes[8..16], &1u64.to_le_bytes());
    bytes[16..24].copy_from_slice(&0x0102_0304_0506_0708u64.to_le_bytes());
    let mut back = CounterState::from_bytes(&mut bytes).unwrap();
    assert_eq!((back.seq(), back.num_actions(), back.counter()), (2, 1, 0x0102_0304_0506_0708));
    assert_eq!(back.queue_len(), 1);
    let node = back.peek_async().unwrap();
    assert_eq!(node.key, AsyncIxKey { slot: 3, ixn_value: 1, seq: 1 });
    assert_eq!(node.value, [9; 32]);
    back.drain_ready_async(4).unwrap();
    assert_eq!(back.counter(), 0x0102_0304_0506_0709);
    drop(back);
    assert_eq!(&bytes[16..24], &[9, 7, 6, 5, 4, 3, 2, 1]);
}

#[test]
fn first_touch_initialises() {
    let mut bytes = vec![0u8; STATE_LEN];
    bytes[8] = 3;
    let mut state = CounterState::from_bytes(&mut bytes).unwrap();
    CounterProgram::process(&mut state, Some([0; 32]), 0, &[2]).unwrap();
    assert_eq!((state.seq(), state.num_actions(), state.counter()), (1, 0, 0));
}

#[test]
fn stored_kind_out_of_range_is_rejected() {
    let mut bytes = vec![0u8; STATE_LEN];
    {
        let mut state = CounterState::from_bytes(&mut bytes).unwrap();
        initialize_state(&mut state);
        CounterSyncIx::RefillActions.process(&mut state).unwrap();
        state.queue_async(&CounterAsyncIx::Increment, &QueueAsyncArgs { key: [1; 32] }, 0).unwrap();
    }
    // Find the stored key [0, 1, 1] in the store's bytes and change its kind to 2.
    let pattern: Vec<u8> = [0u64, 1, 1].iter().flat_map(|v| v.to_le_bytes()).collect();
    let at = (HEADER_LEN..STATE_LEN - 24).find(|&i| bytes[i..i + 24] == pattern[..]).unwrap();
    bytes[at + 8] = 2;
    let mut state = CounterState::from_bytes(&mut bytes).unwrap();
    assert_eq!(state.process_next_async(), Err(CounterError::InvalidInstructionData));
    assert_eq!(state.counter(), 0);
    assert_eq!(state.queue_len(), 1);
    assert_eq!(state.drain_ready_async(1), Err(CounterError::InvalidInstructionData));
}

#[test]
fn mutable_container_writes_through() {
    let mut x = CounterAsyncIx::Decrement;
    {
        let mut b = OwnedOrBorrowedMut::BorrowedMut(&mut x);
        *b.deref_mut() = CounterAsyncIx::Increment;
        assert_eq!(*b.deref(), CounterAsyncIx::Increment);
    }
    assert_eq!(x, CounterAsyncIx::Increment);
    let mut o: OwnedOrBorrowedMut<u64> = OwnedOrBorrowedMut::Owned(3);
    *o.deref_mut() = 4;
    assert_eq!(*o.deref(), 4);
}

#[test]
fn async_probe_reads_first_byte() {
    assert_eq!(CounterAsyncIx::probe(&[0]), Some(CounterAsyncIx::Decrement));
    assert_eq!(CounterAsyncIx::probe(&[1, 5]), Some(CounterAsyncIx::Increment));
    assert_eq!(CounterAsyncIx::probe(&[2]), None);
    assert_eq!(CounterAsyncIx::probe(&[]), None);
}
