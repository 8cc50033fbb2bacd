//! Emulation of read-only contract calls against a rollup ledger.
//!
//! Two kinds of virtual contracts are served: one fungible-token surface per
//! registered token, and a single registry proxy through which every
//! non-fungible token is reached. A call is recognised by the first four
//! bytes of its payload, its arguments are decoded, the ledger is asked what
//! the answer depends on, and the answer is encoded as a contract would
//! return it.
pub mod abi;
pub mod base58;
pub mod calls;
pub mod laws;
pub mod ledger;
pub mod number;
pub mod selector;
pub mod table;
