//! The dispatch of a call: from destination and payload to the operation
//! that emulates it, and from the ledger's answers to the bytes returned.
use crate::abi::{
    abi_decode, abi_encode, address_encoding, argument_word, decodes_to, encodable,
    holds_arguments, string_encoding, AbiValue, Address, FunctionSignature, ParamKind,
    MAX_TEXT_BYTES,
};
use crate::base58::{cid_text, ipfs_cid, lemma_base58_text_shape, multihash};
use crate::ledger::{CallError, NftRecord, Query, QueryView, Reply, Step, StepView, TokenRecord};
use crate::number::{
    be_bytes, be_value, pow256, word_from_be_bytes, word_from_u64, word_max, word_to_u32, Word,
};
use crate::selector::{leading_key, selector_key};
use crate::table::{
    all_emulated, gen_hashmap, table_of, table_sound, table_view, EntryView, Operation, Surface,
    TableEntry,
};
use std::collections::HashMap;
use vstd::prelude::*;
use vstd::slice::slice_subrange;
use vstd::utf8::{encode_utf8, is_ascii_chars, is_ascii_chars_concat, is_ascii_chars_encode_utf8};

verus! {

/// Emulates calls to the contracts of fungible tokens and to the registry
/// proxy of non-fungible ones.
#[derive(Debug)]
pub struct CallsHelper {
    erc20: HashMap<u32, TableEntry>,
    zksync_proxy: HashMap<u32, TableEntry>,
    zksync_proxy_address: Address,
}

/// What a helper knows: its two tables and the address of the proxy.
pub ghost struct HelperView {
    pub erc20: Map<u32, EntryView>,
    pub zksync_proxy: Map<u32, EntryView>,
    pub zksync_proxy_address: Seq<u8>,
}

/// The outcome of a call that is not emulated: no bytes.
pub open spec fn not_emulated() -> StepView {
    StepView::Done(Ok(Seq::empty()))
}

/// The outcome of a call that failed.
pub open spec fn internal_error() -> StepView {
    StepView::Done(Err(CallError::Internal))
}

/// The outcome of a call that returns `bytes`.
pub open spec fn returned(bytes: Seq<u8>) -> StepView {
    StepView::Done(Ok(bytes))
}

/// The word that is returned for a number.
pub open spec fn number_encoding(value: nat) -> Seq<u8> {
    be_bytes(value, 32)
}

/// The largest number that a word holds, as it is returned.
pub open spec fn max_encoding() -> Seq<u8> {
    number_encoding((pow256(32) - 1) as nat)
}

/// The arguments of a call: what follows the selector.
pub open spec fn arguments(data: Seq<u8>) -> Seq<u8> {
    data.skip(4)
}

/// The entry that a payload is for: the one filed under the key of its
/// first four bytes, provided that the rest holds a word for each parameter.
pub open spec fn matched_entry(table: Map<u32, EntryView>, data: Seq<u8>) -> Option<EntryView> {
    if data.len() < 4 {
        None
    } else {
        let key = selector_key(data.subrange(0, 4));
        if !table.contains_key(key) {
            None
        } else if !holds_arguments(table[key].inputs.len(), arguments(data)) {
            None
        } else {
            Some(table[key])
        }
    }
}

/// The text that `tokenURI` returns for a content hash.
pub open spec fn token_uri(content_hash: Seq<u8>) -> Seq<char> {
    "ipfs://"@ + cid_text(content_hash)
}

/// What a call about one non-fungible token returns once the token is known.
/// Only `ownerOf` has one more question to ask.
pub open spec fn nft_step(
    operation: Operation,
    nft: NftRecord,
    proxy_address: Seq<u8>,
    replies: Seq<Reply>,
) -> StepView {
    match operation {
        Operation::CreatorId => returned(number_encoding(nft.creator_id as nat)),
        Operation::CreatorAddress => returned(address_encoding(nft.creator_address@)),
        Operation::SerialId => returned(number_encoding(nft.serial_id as nat)),
        Operation::ContentHash => returned(nft.content_hash@),
        Operation::TokenUri => returned(string_encoding(token_uri(nft.content_hash@))),
        Operation::GetApproved => returned(address_encoding(proxy_address)),
        Operation::OwnerOf => if replies.len() == 0 {
            StepView::Ask(QueryView::NftOwner { id: nft.id })
        } else {
            match replies[0] {
                Reply::NftOwner(owner) => returned(address_encoding(owner@)),
                _ => internal_error(),
            }
        },
        _ => internal_error(),
    }
}

/// What a call to the proxy comes to, once its entry is found. An id that
/// is too large for the ledger names no token, and the ledger is not asked.
pub open spec fn proxy_step(
    entry: EntryView,
    data: Seq<u8>,
    proxy_address: Seq<u8>,
    replies: Seq<Reply>,
) -> StepView {
    let word = argument_word(arguments(data), 0);
    if entry.operation == Operation::NftBalanceOf {
        if entry.inputs[0] != ParamKind::Address {
            internal_error()
        } else if replies.len() == 0 {
            StepView::Ask(QueryView::NftBalance { address: word.subrange(12, 32) })
        } else {
            match replies[0] {
                Reply::NftBalance(count) => returned(number_encoding(count as nat)),
                _ => internal_error(),
            }
        }
    } else if entry.inputs[0] != ParamKind::Uint256 {
        internal_error()
    } else if be_value(word) > u32::MAX {
        not_emulated()
    } else if replies.len() == 0 {
        StepView::Ask(QueryView::Nft { id: be_value(word) as u32 })
    } else {
        match replies[0] {
            Reply::Nft(Some(nft)) => nft_step(entry.operation, nft, proxy_address, replies.skip(1)),
            Reply::Nft(None) => not_emulated(),
            _ => internal_error(),
        }
    }
}

/// What a call to the contract of a fungible token comes to, once its
/// entry is found. A symbol of more than `MAX_TEXT_BYTES` bytes cannot be
/// encoded, and the call fails. Only `balanceOf` asks the ledger: first for
/// the latest finalized block, then for the balance at that block.
pub open spec fn fungible_step(
    entry: EntryView,
    token: TokenRecord,
    data: Seq<u8>,
    replies: Seq<Reply>,
) -> StepView {
    match entry.operation {
        Operation::Name | Operation::Symbol => if encode_utf8(token.symbol@).len()
            > MAX_TEXT_BYTES {
            internal_error()
        } else {
            returned(string_encoding(token.symbol@))
        },
        Operation::Decimals => returned(number_encoding(token.decimals as nat)),
        Operation::TotalSupply | Operation::Allowance => returned(max_encoding()),
        Operation::BalanceOf => if replies.len() == 0 {
            StepView::Ask(QueryView::LastBlock)
        } else {
            match replies[0] {
                Reply::LastBlock(block) => if entry.inputs[0] != ParamKind::Address {
                    internal_error()
                } else if replies.len() == 1 {
                    StepView::Ask(
                        QueryView::Balance {
                            address: argument_word(arguments(data), 0).subrange(12, 32),
                            block,
                            token: token.id,
                        },
                    )
                } else {
                    match replies[1] {
                        Reply::Balance(amount) => if be_value(amount@) < pow256(32) {
                            returned(number_encoding(be_value(amount@)))
                        } else {
                            internal_error()
                        },
                        _ => internal_error(),
                    }
                },
                _ => internal_error(),
            }
        },
        _ => internal_error(),
    }
}

/// Where the emulation of a call stands after the ledger has given
/// `replies`, in the order in which it was asked.
///
/// A call to the proxy goes by the proxy's table. Any other destination is
/// first looked up as a token: only a fungible token has a contract. A
/// payload that names no function of the table, or is too short for the
/// function's arguments, is not emulated. A reply that says that the ledger
/// failed, or that answers another question than the one asked, ends the
/// call with an error.
pub open spec fn emulated(
    helper: HelperView,
    to: Seq<u8>,
    data: Seq<u8>,
    replies: Seq<Reply>,
) -> StepView {
    if to == helper.zksync_proxy_address {
        match matched_entry(helper.zksync_proxy, data) {
            Some(entry) => proxy_step(entry, data, helper.zksync_proxy_address, replies),
            None => not_emulated(),
        }
    } else if replies.len() == 0 {
        StepView::Ask(QueryView::Token { address: to })
    } else {
        match replies[0] {
            Reply::Token(Some(token)) => if token.is_nft {
                not_emulated()
            } else {
                match matched_entry(helper.erc20, data) {
                    Some(entry) => fungible_step(entry, token, data, replies.skip(1)),
                    None => not_emulated(),
                }
            },
            Reply::Token(None) => not_emulated(),
            _ => internal_error(),
        }
    }
}

/// Whether `values` are the arguments that `data` holds for parameters of `kinds`.
pub open spec fn decoded_as(kinds: Seq<ParamKind>, data: Seq<u8>, values: Seq<AbiValue>) -> bool {
    &&& values.len() == kinds.len()
    &&& forall|i: int|
        0 <= i < kinds.len() ==> decodes_to(kinds[i], argument_word(data, i), #[trigger] values[i])
}

fn same_address(first: &Address, second: &Address) -> (same: bool)
    ensures
        same == (first@ == second@),
{
    let mut k: usize = 0;
    while k < 20
        invariant
            k <= 20,
            forall|i: int| 0 <= i < k ==> first@[i] == second@[i],
        decreases 20 - k,
    {
        if first[k] != second[k] {
            return false;
        }
        k += 1;
    }
    assert(first@ =~= second@);
    true
}

fn not_emulated_step() -> (step: Step)
    ensures
        step@ == not_emulated(),
{
    Step::Done(Ok(Vec::new()))
}

fn internal_error_step() -> (step: Step)
    ensures
        step@ == internal_error(),
{
    Step::Done(Err(CallError::Internal))
}

fn returned_step(value: AbiValue) -> (step: Step)
    requires
        encodable(value),
    ensures
        step@ == returned(crate::abi::abi_encoding(value)),
{
    Step::Done(Ok(abi_encode(&value)))
}

/// The entry that a payload is for, with the arguments that the payload holds.
fn find<'a>(table: &'a HashMap<u32, TableEntry>, data: &[u8]) -> (found: Option<
    (&'a TableEntry, Vec<AbiValue>),
>)
    ensures
        match found {
            Some((entry, values)) => matched_entry(table_view(table@), data@) == Some(entry@)
                && decoded_as(entry@.inputs, arguments(data@), values@),
            None => matched_entry(table_view(table@), data@) is None,
        },
{
    broadcast use vstd::std_specs::hash::group_hash_axioms;

    if data.len() < 4 {
        return None;
    }
    let key = leading_key(data);
    let entry = match table.get(&key) {
        Some(entry) => entry,
        None => {
            return None;
        },
    };
    let rest = slice_subrange(data, 4, data.len());
    assert(rest@ == arguments(data@));
    match abi_decode(&entry.function.inputs, rest) {
        Some(values) => Some((entry, values)),
        None => None,
    }
}

/// The text that `tokenURI` returns has 53 bytes.
pub proof fn lemma_token_uri_shape(content_hash: Seq<u8>)
    ensures
        encode_utf8(token_uri(content_hash)).len() == 53,
{
    let head = "ipfs://"@;
    let cid = cid_text(content_hash);
    reveal_strlit("ipfs://");
    lemma_base58_text_shape(multihash(content_hash));
    assert(is_ascii_chars(head));
    is_ascii_chars_concat(token_uri(content_hash), head, cid);
    is_ascii_chars_encode_utf8(token_uri(content_hash));
}

/// What is known of the token that a call is about.
#[derive(Clone, Copy, Debug, PartialEq, Eq)]
pub enum NftLookup {
    /// The ledger has to be asked.
    Ask(Query),
    /// The id is too large, or the ledger has no such token.
    Absent,
    Found(NftRecord),
    Failed,
}

/// Looks for the token with the id that `token_id` holds, asking the ledger
/// only for an id that it can have: one beyond 32 bits names no token. The
/// first of `replies`, if there is one, is taken as the ledger's answer.
pub fn get_nft(token_id: &Word, replies: &[Reply]) -> (lookup: NftLookup)
    ensures
        be_value(token_id@) > u32::MAX ==> lookup is Absent,
        be_value(token_id@) <= u32::MAX && replies@.len() == 0 ==> lookup == NftLookup::Ask(
            Query::Nft { id: be_value(token_id@) as u32 },
        ),
        be_value(token_id@) <= u32::MAX && replies@.len() > 0 ==> match replies@[0] {
            Reply::Nft(Some(nft)) => lookup == NftLookup::Found(nft),
            Reply::Nft(None) => lookup is Absent,
            _ => lookup is Failed,
        },
{
    let id = match word_to_u32(token_id) {
        Some(id) => id,
        None => {
            return NftLookup::Absent;
        },
    };
    if replies.len() == 0 {
        return NftLookup::Ask(Query::Nft { id });
    }
    match &replies[0] {
        Reply::Nft(Some(nft)) => NftLookup::Found(*nft),
        Reply::Nft(None) => NftLookup::Absent,
        _ => NftLookup::Failed,
    }
}

impl View for CallsHelper {
    type V = HelperView;

    closed spec fn view(&self) -> HelperView {
        HelperView {
            erc20: table_view(self.erc20@),
            zksync_proxy: table_view(self.zksync_proxy@),
            zksync_proxy_address: self.zksync_proxy_address@,
        }
    }
}

impl Clone for CallsHelper {
    fn clone(&self) -> (copy: Self)
        ensures
            copy@ == self@,
    {
        proof {
            use_type_invariant(self);
        }
        Self {
            erc20: self.erc20.clone(),
            zksync_proxy: self.zksync_proxy.clone(),
            zksync_proxy_address: self.zksync_proxy_address,
        }
    }
}

/// Whether each table of a helper holds only functions of its own surface,
/// each under the key of its selector.
pub open spec fn helper_sound(helper: HelperView) -> bool {
    &&& table_sound(helper.erc20, Surface::Fungible)
    &&& table_sound(helper.zksync_proxy, Surface::Proxy)
    &&& helper.zksync_proxy_address.len() == 20
}

impl CallsHelper {
    /// Holds of every helper from the moment it is made: nothing changes
    /// its tables afterwards.
    #[verifier::type_invariant]
    spec fn sound(&self) -> bool {
        helper_sound(self@)
    }

    /// A helper for the functions of the two surfaces, with the proxy at
    /// `zksync_proxy_address`.
    pub fn new(
        erc20_functions: Vec<FunctionSignature>,
        zksync_proxy_functions: Vec<FunctionSignature>,
        zksync_proxy_address: Address,
    ) -> (helper: Self)
        requires
            all_emulated(erc20_functions@, Surface::Fungible),
            all_emulated(zksync_proxy_functions@, Surface::Proxy),
        ensures
            helper_sound(helper@),
            helper@.erc20 == table_of(erc20_functions@, Surface::Fungible),
            helper@.zksync_proxy == table_of(zksync_proxy_functions@, Surface::Proxy),
            helper@.zksync_proxy_address == zksync_proxy_address@,
    {
        let erc20 = gen_hashmap(erc20_functions, Surface::Fungible);
        let zksync_proxy = gen_hashmap(zksync_proxy_functions, Surface::Proxy);
        Self { erc20, zksync_proxy, zksync_proxy_address }
    }

    /// Takes the call to `to` with payload `data` as far as the ledger's
    /// `replies` allow: to the next question, or to its end.
    pub fn execute(&self, to: Address, data: &[u8], replies: &[Reply]) -> (step: Step)
        ensures
            step@ == emulated(self@, to@, data@, replies@),
    {
        proof {
            use_type_invariant(self);
        }
        if same_address(&to, &self.zksync_proxy_address) {
            match find(&self.zksync_proxy, data) {
                Some((entry, values)) => self.proxy_call(entry, &values, Ghost(data@), replies),
                None => not_emulated_step(),
            }
        } else {
            if replies.len() == 0 {
                return Step::Ask(Query::Token { address: to });
            }
            match &replies[0] {
                Reply::Token(Some(token)) => {
                    if token.is_nft {
                        return not_emulated_step();
                    }
                    let rest = slice_subrange(replies, 1, replies.len());
                    assert(rest@ == replies@.skip(1));
                    match find(&self.erc20, data) {
                        Some((entry, values)) => self.fungible_call(
                            entry,
                            &values,
                            token,
                            Ghost(data@),
                            rest,
                        ),
                        None => not_emulated_step(),
                    }
                },
                Reply::Token(None) => not_emulated_step(),
                _ => internal_error_step(),
            }
        }
    }

    fn proxy_call(
        &self,
        entry: &TableEntry,
        values: &Vec<AbiValue>,
        Ghost(data): Ghost<Seq<u8>>,
        replies: &[Reply],
    ) -> (step: Step)
        requires
            helper_sound(self@),
            matched_entry(self@.zksync_proxy, data) == Some(entry@),
            decoded_as(entry@.inputs, arguments(data), values@),
        ensures
            step@ == proxy_step(entry@, data, self@.zksync_proxy_address, replies@),
    {
        let ghost key = selector_key(data.subrange(0, 4));
        assert(self@.zksync_proxy.contains_key(key));
        assert(values@.len() >= 1);
        let ghost word = argument_word(arguments(data), 0);
        assert(decodes_to(entry@.inputs[0], word, values@[0]));
        match entry.operation {
            Operation::NftBalanceOf => {
                let address = match &values[0] {
                    AbiValue::Address(address) => *address,
                    _ => {
                        return internal_error_step();
                    },
                };
                if replies.len() == 0 {
                    return Step::Ask(Query::NftBalance { address });
                }
                match &replies[0] {
                    Reply::NftBalance(count) => returned_step(
                        AbiValue::Uint(word_from_u64(*count as u64)),
                    ),
                    _ => internal_error_step(),
                }
            },
            operation => {
                let token_id = match &values[0] {
                    AbiValue::Uint(token_id) => token_id,
                    _ => {
                        return internal_error_step();
                    },
                };
                match get_nft(token_id, replies) {
                    NftLookup::Ask(query) => Step::Ask(query),
                    NftLookup::Absent => not_emulated_step(),
                    NftLookup::Failed => internal_error_step(),
                    NftLookup::Found(nft) => {
                        let rest = slice_subrange(replies, 1, replies.len());
                        assert(rest@ == replies@.skip(1));
                        self.nft_call(operation, &nft, rest)
                    },
                }
            },
        }
    }

    fn nft_call(&self, operation: Operation, nft: &NftRecord, replies: &[Reply]) -> (step: Step)
        ensures
            step@ == nft_step(operation, *nft, self@.zksync_proxy_address, replies@),
    {
        match operation {
            Operation::CreatorId => returned_step(
                AbiValue::Uint(word_from_u64(nft.creator_id as u64)),
            ),
            Operation::CreatorAddress => returned_step(AbiValue::Address(nft.creator_address)),
            Operation::SerialId => returned_step(AbiValue::Uint(word_from_u64(nft.serial_id as u64))),
            Operation::ContentHash => returned_step(AbiValue::FixedBytes(nft.content_hash)),
            Operation::TokenUri => {
                let cid = ipfs_cid(&nft.content_hash);
                let mut uri = String::from_str("ipfs://");
                uri.append(cid.as_str());
                proof {
                    lemma_token_uri_shape(nft.content_hash@);
                }
                returned_step(AbiValue::Str(uri))
            },
            Operation::GetApproved => returned_step(AbiValue::Address(self.zksync_proxy_address)),
            Operation::OwnerOf => {
                if replies.len() == 0 {
                    return Step::Ask(Query::NftOwner { id: nft.id });
                }
                match &replies[0] {
                    Reply::NftOwner(owner) => returned_step(AbiValue::Address(*owner)),
                    _ => internal_error_step(),
                }
            },
            _ => internal_error_step(),
        }
    }

    fn fungible_call(
        &self,
        entry: &TableEntry,
        values: &Vec<AbiValue>,
        token: &TokenRecord,
        Ghost(data): Ghost<Seq<u8>>,
        replies: &[Reply],
    ) -> (step: Step)
        requires
            helper_sound(self@),
            matched_entry(self@.erc20, data) == Some(entry@),
            decoded_as(entry@.inputs, arguments(data), values@),
        ensures
            step@ == fungible_step(entry@, *token, data, replies@),
    {
        let ghost key = selector_key(data.subrange(0, 4));
        assert(self@.erc20.contains_key(key));
        match entry.operation {
            Operation::Name | Operation::Symbol => {
                if token.symbol.as_str().as_bytes().len() > MAX_TEXT_BYTES {
                    return internal_error_step();
                }
                returned_step(AbiValue::Str(token.symbol.clone()))
            },
            Operation::Decimals => returned_step(AbiValue::Uint(word_from_u64(token.decimals as u64))),
            Operation::TotalSupply | Operation::Allowance => returned_step(
                AbiValue::Uint(word_max()),
            ),
            Operation::BalanceOf => {
                if replies.len() == 0 {
                    return Step::Ask(Query::LastBlock);
                }
                let block = match &replies[0] {
                    Reply::LastBlock(block) => *block,
                    _ => {
                        return internal_error_step();
                    },
                };
                assert(values@.len() >= 1);
                assert(decodes_to(
                    entry@.inputs[0],
                    argument_word(arguments(data), 0),
                    values@[0],
                ));
                let address = match &values[0] {
                    AbiValue::Address(address) => *address,
                    _ => {
                        return internal_error_step();
                    },
                };
                if replies.len() == 1 {
                    return Step::Ask(Query::Balance { address, block, token: token.id });
                }
                match &replies[1] {
                    Reply::Balance(amount) => match word_from_be_bytes(amount.as_slice()) {
                        Some(balance) => returned_step(AbiValue::Uint(balance)),
                        None => internal_error_step(),
                    },
                    _ => internal_error_step(),
                }
            },
            _ => internal_error_step(),
        }
    }
}

} // verus!
