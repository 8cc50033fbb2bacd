//! What is asked of the ledger while a call is emulated, and what it answers.
use crate::abi::Address;
use crate::number::Word;
use vstd::prelude::*;

verus! {

/// A token as the ledger knows it.
#[derive(Clone, Debug, PartialEq, Eq)]
pub struct TokenRecord {
    pub id: u32,
    pub symbol: String,
    pub decimals: u8,
    /// Set for a non-fungible token, which has no contract of its own.
    pub is_nft: bool,
}

/// A non-fungible token as the ledger knows it.
#[derive(Clone, Copy, Debug, PartialEq, Eq)]
pub struct NftRecord {
    pub id: u32,
    pub creator_id: u32,
    pub creator_address: Address,
    pub serial_id: u32,
    pub content_hash: Word,
}

/// A question to the ledger.
#[derive(Clone, Copy, Debug, PartialEq, Eq)]
pub enum Query {
    /// The token whose contract stands at `address`.
    Token { address: Address },
    /// The non-fungible token with this id.
    Nft { id: u32 },
    /// The present owner of the non-fungible token with this id.
    NftOwner { id: u32 },
    /// How many non-fungible tokens the account at `address` owns.
    NftBalance { address: Address },
    /// The number of the latest finalized block: the last one that the
    /// ledger has saved.
    LastBlock,
    /// What the account at `address` held of `token` at `block`, which is
    /// the latest finalized block that the ledger has named.
    Balance { address: Address, block: u32, token: u32 },
}

/// A question to the ledger, with each address as the bytes it holds.
pub ghost enum QueryView {
    Token { address: Seq<u8> },
    Nft { id: u32 },
    NftOwner { id: u32 },
    NftBalance { address: Seq<u8> },
    LastBlock,
    Balance { address: Seq<u8>, block: u32, token: u32 },
}

impl View for Query {
    type V = QueryView;

    open spec fn view(&self) -> QueryView {
        match *self {
            Query::Token { address } => QueryView::Token { address: address@ },
            Query::Nft { id } => QueryView::Nft { id },
            Query::NftOwner { id } => QueryView::NftOwner { id },
            Query::NftBalance { address } => QueryView::NftBalance { address: address@ },
            Query::LastBlock => QueryView::LastBlock,
            Query::Balance { address, block, token } => QueryView::Balance {
                address: address@,
                block,
                token,
            },
        }
    }
}

/// An answer of the ledger.
#[derive(Clone, Debug, PartialEq, Eq)]
pub enum Reply {
    Token(Option<TokenRecord>),
    Nft(Option<NftRecord>),
    NftOwner(Address),
    NftBalance(u32),
    /// The number of the latest finalized block.
    LastBlock(u32),
    /// An amount of any size, as the bytes of the number, most significant first.
    Balance(Vec<u8>),
    /// The ledger could not answer.
    Failed,
}

/// Why a call has no result. No detail is given.
#[derive(Clone, Copy, Debug, PartialEq, Eq, Structural)]
pub enum CallError {
    Internal,
}

/// Where the emulation of a call stands.
#[derive(Debug, PartialEq, Eq)]
pub enum Step {
    /// The ledger has to answer this before the call can go on.
    Ask(Query),
    /// The call is over. An empty result says that the call is not emulated.
    Done(Result<Vec<u8>, CallError>),
}

/// Where the emulation of a call stands, with bytes as sequences.
pub ghost enum StepView {
    Ask(QueryView),
    Done(Result<Seq<u8>, CallError>),
}

impl View for Step {
    type V = StepView;

    open spec fn view(&self) -> StepView {
        match *self {
            Step::Ask(query) => StepView::Ask(query@),
            Step::Done(Ok(bytes)) => StepView::Done(Ok(bytes@)),
            Step::Done(Err(error)) => StepView::Done(Err(error)),
        }
    }
}

} // verus!
