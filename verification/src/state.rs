//! Abstraction over the global state that blocks modify, the time type that
//! orders views, and a dummy state for harnesses.

use vstd::prelude::*;
use crate::commitment::Commitment;
use crate::data::{Transaction, VidBlockPayload};

verus! {

/// Time as consensus counts it: a strictly ordered view number.
pub trait ConsensusTime: Sized {
    /// The number this time stands for.
    spec fn time_value(&self) -> u64;

    /// Time number `val`.
    fn new(val: u64) -> (s: Self)
        ensures
            s.time_value() == val,
    ;

    /// The number this time stands for.
    fn get_u64(&self) -> (v: u64)
        ensures
            v == self.time_value(),
    ;

    /// Time number zero.
    fn genesis() -> (s: Self)
        ensures
            s.time_value() == 0,
    {
        Self::new(0)
    }
}

/// A view number.
#[derive(Clone, Copy, PartialEq, Eq, PartialOrd, Ord, Hash, Debug, Structural)]
pub struct ViewNumber {
    /// The number of this view.
    pub round: u64,
}

impl ConsensusTime for ViewNumber {
    open spec fn time_value(&self) -> u64 {
        self.round
    }

    fn new(val: u64) -> (s: Self) {
        ViewNumber { round: val }
    }

    fn get_u64(&self) -> (v: u64) {
        self.round
    }
}

/// Abstraction over the state that blocks modify: validating a block header
/// as an extension of this state, and producing the state it leads to.
pub trait State: Sized {
    /// The error type for this kind of ledger state.
    type Error;

    /// The block header this state is associated with.
    type BlockHeader;

    /// The block payload this state is associated with.
    type BlockPayload;

    /// The time type ordering this state's views.
    type Time;

    /// Whether the block header is a valid extension of this state.
    fn validate_block(&self, block_header: &Self::BlockHeader, view_number: &Self::Time) -> bool;

    /// The initial state.
    fn initialize() -> Self;

    /// The state after appending the block header, or an error when the
    /// result would be invalid.
    fn append(&self, block_header: &Self::BlockHeader, view_number: &Self::Time) -> Result<
        Self,
        Self::Error,
    >;

    /// Notify the persistence backend that this state was committed.
    fn on_commit(&self);
}

/// Extra behaviour a state needs to be usable by a test harness: producing
/// a transaction on demand.  The caller supplies any randomness through the
/// padding argument.
pub trait TestableState: State {
    /// A transaction the harness can feed in; `padding` asks for that many
    /// bytes of filler.
    fn create_random_transaction(state: Option<&Self>, padding: u64) -> Transaction;
}

/// Extra behaviour a block needs to be usable by a test harness.
pub trait TestableBlock: Sized {
    /// The genesis block.
    fn genesis() -> Self;

    /// The number of transactions in this block.
    fn txn_count(&self) -> u64;
}

impl TestableBlock for VidBlockPayload {
    /// The empty block, committed over no bytes.
    fn genesis() -> (b: Self)
        ensures
            b.transactions@.len() == 0,
    {
        let empty: Vec<u8> = Vec::new();
        VidBlockPayload {
            transactions: Vec::new(),
            payload_commitment: Commitment::from_bytes(&empty),
        }
    }

    fn txn_count(&self) -> (n: u64)
        ensures
            self.transactions@.len() <= u64::MAX ==> n == self.transactions@.len(),
    {
        self.transactions.len() as u64
    }
}

/// The error of the dummy state.
#[derive(Clone, Copy, PartialEq, Eq, Debug, Structural)]
pub struct DummyError;

impl DummyError {
    /// What went wrong, in words.
    pub fn message(&self) -> String {
        "A bad thing happened".to_string()
    }
}

/// A stand-in ledger state for harnesses: one counter, no real blocks.
#[derive(Clone, Copy, Hash, PartialEq, Eq, Debug, Structural)]
pub struct DummyState {
    /// Some dummy data.
    nonce: u64,
}

impl Default for DummyState {
    /// The dummy state starts at zero.
    fn default() -> (s: Self)
        ensures
            s.spec_nonce() == 0,
    {
        DummyState { nonce: 0 }
    }
}

/// A block header over the dummy state.
#[derive(Clone, Copy, PartialEq, Eq, Debug, Structural)]
pub struct VidBlockHeader {
    /// The number of this block in the chain.
    pub block_number: u64,
    /// The commitment of the block's payload.
    pub payload_commitment: Commitment,
}

impl DummyState {
    /// The counter behind this state.
    pub closed spec fn spec_nonce(&self) -> u64 {
        self.nonce
    }

    /// The commitment of this state.  The counter is the state's whole
    /// content, so it already identifies it.
    pub fn commit(&self) -> (c: Commitment)
        ensures
            c == (Commitment { val: self.spec_nonce() }),
    {
        Commitment { val: self.nonce }
    }

    /// The tag naming this commitment scheme.
    pub fn tag() -> String {
        "DUMMY_STATE".to_string()
    }

    /// A dummy state from a drawn nonce; the caller draws it from its own
    /// source of randomness.
    pub fn random(nonce: u64) -> (s: Self)
        ensures
            s.spec_nonce() == nonce,
    {
        DummyState { nonce }
    }

}

impl TestableState for DummyState {
    /// A transaction for harnesses: a single zero byte, whatever the
    /// requested padding.
    fn create_random_transaction(_state: Option<&DummyState>, _padding: u64) -> Transaction {
        let mut payload: Vec<u8> = Vec::new();
        payload.push(0u8);
        Transaction { payload }
    }
}

impl State for DummyState {
    type Error = DummyError;

    type BlockHeader = VidBlockHeader;

    type BlockPayload = VidBlockPayload;

    type Time = ViewNumber;

    /// The dummy state extends nothing.
    fn validate_block(&self, _block_header: &VidBlockHeader, _view_number: &ViewNumber) -> bool {
        false
    }

    fn initialize() -> Self {
        let state = DummyState::default();
        DummyState { nonce: state.nonce.wrapping_add(1) }
    }

    fn append(&self, _block_header: &VidBlockHeader, _view_number: &ViewNumber) -> Result<
        Self,
        DummyError,
    > {
        Ok(DummyState { nonce: self.nonce.wrapping_add(1) })
    }

    fn on_commit(&self) {
    }
}

} // verus!
