//! Instruction discriminants and their bounds-checked decoding from raw bytes.
use vstd::prelude::*;

verus! {

/// Why an invocation failed.
#[derive(Debug, Clone, Copy, PartialEq, Eq, Structural)]
pub enum CounterError {
    /// Unknown operation tag, payload too short, or discriminant out of range.
    InvalidInstructionData,
    /// The state region does not have the fixed expected length.
    InvalidAccountData,
    /// An enqueue was attempted with no credit left.
    InsufficientCredits,
    /// The ordered store is already full.
    CapacityExceeded,
    /// Fewer inputs than the operation needs (no actor identifier).
    NotEnoughInputs,
}

/// Bytes of an encoded discriminant.
pub const DISCRIMINANT_LEN: usize = 8;

/// The unsigned integer that `s` encodes in little-endian byte order.
pub open spec fn le_value(s: Seq<u8>) -> nat
    decreases s.len(),
{
    if s.len() == 0 {
        0
    } else {
        s[0] as nat + 256 * le_value(s.drop_first())
    }
}

/// The discriminant that a payload starts with, when it holds one.
pub open spec fn payload_discriminant(bytes: Seq<u8>) -> Option<nat> {
    if bytes.len() < DISCRIMINANT_LEN {
        None
    } else {
        Some(le_value(bytes.take(DISCRIMINANT_LEN as int)))
    }
}

/// The result of decoding a discriminant whose largest valid value is `max`.
pub open spec fn decode_spec(bytes: Seq<u8>, max: u64) -> Result<u64, CounterError> {
    match payload_discriminant(bytes) {
        Some(d) => if d <= max {
            Ok(d as u64)
        } else {
            Err(CounterError::InvalidInstructionData)
        },
        None => Err(CounterError::InvalidInstructionData),
    }
}

proof fn lemma_le_value_zero(s: Seq<u8>)
    ensures
        le_value(s) == 0 <==> forall|i: int| 0 <= i < s.len() ==> s[i] == 0,
    decreases s.len(),
{
    if s.len() > 0 {
        lemma_le_value_zero(s.drop_first());
        if le_value(s) == 0 {
            assert forall|i: int| 0 <= i < s.len() implies s[i] == 0 by {
                if i > 0 {
                    assert(s[i] == s.drop_first()[i - 1]);
                }
            }
        }
        if forall|i: int| 0 <= i < s.len() ==> s[i] == 0 {
            assert forall|i: int| 0 <= i < s.drop_first().len() implies s.drop_first()[i] == 0 by {
                assert(s.drop_first()[i] == s[i + 1]);
            }
        }
    }
}

/// Reads the little-endian `u64` discriminant at the start of `bytes` and checks it
/// against `max`.
fn read_discriminant(bytes: &[u8], max: u64) -> (r: Result<u64, CounterError>)
    requires
        max < 256,
    ensures
        r == decode_spec(bytes@, max),
{
    if bytes.len() < DISCRIMINANT_LEN {
        return Err(CounterError::InvalidInstructionData);
    }
    let ghost d = bytes@.take(DISCRIMINANT_LEN as int);
    let ghost tail = d.drop_first();
    proof {
        lemma_le_value_zero(tail);
    }
    let mut i: usize = 1;
    while i < DISCRIMINANT_LEN
        invariant
            1 <= i <= DISCRIMINANT_LEN,
            max < 256,
            bytes@.len() >= DISCRIMINANT_LEN,
            d == bytes@.take(DISCRIMINANT_LEN as int),
            tail == d.drop_first(),
            forall|j: int| 1 <= j < i ==> bytes@[j] == 0,
        decreases DISCRIMINANT_LEN - i,
    {
        if bytes[i] != 0 {
            proof {
                lemma_le_value_zero(tail);
                assert(tail[i - 1] != 0);
                if le_value(tail) == 0 {
                    assert(tail[i - 1] == 0);
                }
                assert(le_value(d) >= 256);
                assert(payload_discriminant(bytes@) == Some(le_value(d)));
            }
            return Err(CounterError::InvalidInstructionData);
        }
        i = i + 1;
    }
    proof {
        assert forall|j: int| 0 <= j < tail.len() implies tail[j] == 0 by {
            assert(tail[j] == bytes@[j + 1]);
        }
        assert(le_value(d) == bytes@[0] as nat);
    }
    if bytes[0] as u64 > max {
        Err(CounterError::InvalidInstructionData)
    } else {
        Ok(bytes[0] as u64)
    }
}

/// A decoded value that was either copied out of its input or borrows it.
pub enum OwnedOrBorrowed<'a, T> {
    Owned(T),
    Borrowed(&'a T),
}

impl<'a, T> OwnedOrBorrowed<'a, T> {
    /// The value, whichever way it is held.
    pub open spec fn view(&self) -> T {
        match self {
            OwnedOrBorrowed::Owned(t) => *t,
            OwnedOrBorrowed::Borrowed(t) => **t,
        }
    }

    /// Read access to the value, whichever way it is held.
    pub fn deref(&self) -> (r: &T)
        ensures
            *r == self.view(),
    {
        match self {
            OwnedOrBorrowed::Owned(t) => t,
            OwnedOrBorrowed::Borrowed(t) => t,
        }
    }
}

/// A decoded value that was either copied out of its input or borrows it mutably.
pub enum OwnedOrBorrowedMut<'a, T> {
    Owned(T),
    BorrowedMut(&'a mut T),
}

impl<'a, T> OwnedOrBorrowedMut<'a, T> {
    /// The value, whichever way it is held.
    pub open spec fn view(&self) -> T {
        match self {
            OwnedOrBorrowedMut::Owned(t) => *t,
            OwnedOrBorrowedMut::BorrowedMut(t) => **t,
        }
    }

    /// Read access to the value, whichever way it is held.
    pub fn deref(&self) -> (r: &T)
        ensures
            *r == self.view(),
    {
        match self {
            OwnedOrBorrowedMut::Owned(t) => t,
            OwnedOrBorrowedMut::BorrowedMut(t) => t,
        }
    }

    /// Write access to the value, whichever way it is held.
    pub fn deref_mut(&mut self) -> (r: &mut T)
        ensures
            *r == old(self).view(),
            final(self).view() == *final(r),
    {
        match self {
            OwnedOrBorrowedMut::Owned(t) => t,
            OwnedOrBorrowedMut::BorrowedMut(t) => t,
        }
    }
}

/// Immediate operations.
#[derive(Debug, Clone, Copy, PartialEq, Eq, Structural)]
pub enum CounterSyncIx {
    /// Adds `REFILL_AMOUNT` to the credit.
    RefillActions,
}

/// Largest valid discriminant of `CounterSyncIx`.
pub const SYNC_MAX_VARIANT: u64 = 0;

impl CounterSyncIx {
    pub open spec fn value(self) -> u64 {
        match self {
            CounterSyncIx::RefillActions => 0,
        }
    }

    pub open spec fn from_value(d: u64) -> CounterSyncIx {
        CounterSyncIx::RefillActions
    }

    /// The decoding of a payload: a discriminant of eight little-endian bytes that
    /// must not exceed `SYNC_MAX_VARIANT`.
    pub open spec fn decoded(bytes: Seq<u8>) -> Result<CounterSyncIx, CounterError> {
        match decode_spec(bytes, SYNC_MAX_VARIANT) {
            Ok(d) => Ok(Self::from_value(d)),
            Err(e) => Err(e),
        }
    }

    /// Cheap probe of the first byte, without full validation: the refill
    /// operation when the payload starts with a zero byte.
    pub fn probe(bytes: &[u8]) -> (r: Option<CounterSyncIx>)
        ensures
            r == (if bytes@.len() >= 1 && bytes@[0] == 0 {
                Some(CounterSyncIx::RefillActions)
            } else {
                None
            }),
    {
        if bytes.len() >= 1 && bytes[0] == 0 {
            Some(CounterSyncIx::RefillActions)
        } else {
            None
        }
    }

    /// Validated decoding of a payload.
    pub fn from_bytes(bytes: &[u8]) -> (r: Result<CounterSyncIx, CounterError>)
        ensures
            r == Self::decoded(bytes@),
    {
        match read_discriminant(bytes, SYNC_MAX_VARIANT) {
            Ok(_) => Ok(CounterSyncIx::RefillActions),
            Err(e) => Err(e),
        }
    }
}

/// Deferred operations; the lower discriminant runs first within an epoch.
#[derive(Debug, Clone, Copy, PartialEq, Eq, Structural)]
pub enum CounterAsyncIx {
    Decrement,
    Increment,
}

/// Largest valid discriminant of `CounterAsyncIx`.
pub const ASYNC_MAX_VARIANT: u64 = 1;

impl CounterAsyncIx {
    pub open spec fn value(self) -> u64 {
        match self {
            CounterAsyncIx::Decrement => 0,
            CounterAsyncIx::Increment => 1,
        }
    }

    pub open spec fn from_value(d: u64) -> CounterAsyncIx {
        if d == 0 {
            CounterAsyncIx::Decrement
        } else {
            CounterAsyncIx::Increment
        }
    }

    /// The decoding of a payload: a discriminant of eight little-endian bytes that
    /// must not exceed `ASYNC_MAX_VARIANT`.
    pub open spec fn decoded(bytes: Seq<u8>) -> Result<CounterAsyncIx, CounterError> {
        match decode_spec(bytes, ASYNC_MAX_VARIANT) {
            Ok(d) => Ok(Self::from_value(d)),
            Err(e) => Err(e),
        }
    }

    /// Cheap probe of the first byte, without full validation: the operation whose
    /// discriminant that byte is, if it is one.
    pub fn probe(bytes: &[u8]) -> (r: Option<CounterAsyncIx>)
        ensures
            r == (if bytes@.len() >= 1 && bytes@[0] <= ASYNC_MAX_VARIANT {
                Some(Self::from_value(bytes@[0] as u64))
            } else {
                None
            }),
    {
        if bytes.len() >= 1 && bytes[0] as u64 <= ASYNC_MAX_VARIANT {
            Some(Self::from_u64_unchecked(bytes[0] as u64))
        } else {
            None
        }
    }

    /// The discriminant.
    pub fn as_u64(&self) -> (r: u64)
        ensures
            r == self.value(),
    {
        match self {
            CounterAsyncIx::Decrement => 0,
            CounterAsyncIx::Increment => 1,
        }
    }

    /// The operation with discriminant `a`, which must already be known valid.
    pub fn from_u64_unchecked(a: u64) -> (r: CounterAsyncIx)
        requires
            a <= ASYNC_MAX_VARIANT,
        ensures
            r == Self::from_value(a),
            r.value() == a,
    {
        if a == 0 {
            CounterAsyncIx::Decrement
        } else {
            CounterAsyncIx::Increment
        }
    }

    /// Validated decoding of a payload, as an owned value.
    pub fn from_bytes<'a>(bytes: &'a [u8]) -> (r: Result<OwnedOrBorrowed<'a, CounterAsyncIx>, CounterError>)
        ensures
            match r {
                Ok(ix) => Self::decoded(bytes@) == Ok::<CounterAsyncIx, CounterError>(ix.view()),
                Err(e) => Self::decoded(bytes@) == Err::<CounterAsyncIx, CounterError>(e),
            },
    {
        match read_discriminant(bytes, ASYNC_MAX_VARIANT) {
            Ok(d) => Ok(OwnedOrBorrowed::Owned(Self::from_u64_unchecked(d))),
            Err(e) => Err(e),
        }
    }
}

} // verus!
