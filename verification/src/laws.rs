//! What holds of every emulated call, whatever the ledger holds.
use crate::abi::{argument_word, string_encoding, FunctionSignature, ParamKind};
use crate::base58::{base58_decode, cid_text, lemma_base58_round_trip, lemma_multihash_fits, multihash};
use crate::calls::{
    arguments, emulated, matched_entry, max_encoding, not_emulated, number_encoding, token_uri,
    HelperView,
};
use crate::ledger::{CallError, NftRecord, QueryView, Reply, StepView, TokenRecord};
use crate::number::{be_value, lemma_byte_at_largest};
use crate::selector::selector_key;
use crate::table::{key_of_function, table_of, EntryView, Operation, Surface};
use vstd::prelude::*;

verus! {

/// Where a call ends when each question is answered by `ledger`, starting
/// after `replies` and asking at most `patience` more questions.
pub open spec fn outcome_after(
    helper: HelperView,
    ledger: spec_fn(QueryView) -> Reply,
    to: Seq<u8>,
    data: Seq<u8>,
    replies: Seq<Reply>,
    patience: nat,
) -> Result<Seq<u8>, CallError>
    decreases patience,
{
    match emulated(helper, to, data, replies) {
        StepView::Done(result) => result,
        StepView::Ask(query) => if patience == 0 {
            Err(CallError::Internal)
        } else {
            outcome_after(helper, ledger, to, data, replies.push(ledger(query)), (patience - 1) as nat)
        },
    }
}

/// What a call returns when `ledger` answers its questions. No call asks
/// more than three.
pub open spec fn outcome(
    helper: HelperView,
    ledger: spec_fn(QueryView) -> Reply,
    to: Seq<u8>,
    data: Seq<u8>,
) -> Result<Seq<u8>, CallError> {
    outcome_after(helper, ledger, to, data, Seq::empty(), 3)
}

/// Every function that was filed is found under the key of its own selector.
pub proof fn lemma_every_function_is_filed(
    functions: Seq<FunctionSignature>,
    surface: Surface,
    index: int,
)
    requires
        0 <= index < functions.len(),
    ensures
        table_of(functions, surface).contains_key(key_of_function(functions[index])),
    decreases functions.len(),
{
    if index < functions.len() - 1 {
        lemma_every_function_is_filed(functions.drop_last(), surface, index);
    }
}

/// After three replies no call has a question left.
pub proof fn lemma_three_questions_at_most(
    helper: HelperView,
    to: Seq<u8>,
    data: Seq<u8>,
    replies: Seq<Reply>,
)
    requires
        replies.len() >= 3,
    ensures
        emulated(helper, to, data, replies) is Done,
{
}

/// A payload of fewer than four bytes is not emulated, whatever the
/// destination, as long as the ledger can say what stands there.
pub proof fn lemma_short_payload_not_emulated(
    helper: HelperView,
    ledger: spec_fn(QueryView) -> Reply,
    to: Seq<u8>,
    data: Seq<u8>,
)
    requires
        data.len() < 4,
        to == helper.zksync_proxy_address || ledger(QueryView::Token { address: to }) is Token,
    ensures
        outcome(helper, ledger, to, data) == Ok::<Seq<u8>, CallError>(Seq::empty()),
{
    let first = Seq::<Reply>::empty().push(ledger(QueryView::Token { address: to }));
    assert(first.len() == 1);
    assert(first[0] == ledger(QueryView::Token { address: to }));
    reveal_with_fuel(outcome_after, 2);
}

/// A payload whose first four bytes are the key of no function of the
/// proxy's table is not emulated by the proxy.
pub proof fn lemma_unknown_selector_not_emulated_by_proxy(
    helper: HelperView,
    ledger: spec_fn(QueryView) -> Reply,
    data: Seq<u8>,
)
    requires
        data.len() >= 4,
        !helper.zksync_proxy.contains_key(selector_key(data.subrange(0, 4))),
    ensures
        outcome(helper, ledger, helper.zksync_proxy_address, data) == Ok::<Seq<u8>, CallError>(
            Seq::empty(),
        ),
{
}

/// A payload whose first four bytes are the key of no function of the
/// fungible table is not emulated by the contract of a fungible token.
pub proof fn lemma_unknown_selector_not_emulated_by_token(
    helper: HelperView,
    ledger: spec_fn(QueryView) -> Reply,
    to: Seq<u8>,
    data: Seq<u8>,
)
    requires
        to != helper.zksync_proxy_address,
        ledger(QueryView::Token { address: to }) is Token,
        data.len() >= 4,
        !helper.erc20.contains_key(selector_key(data.subrange(0, 4))),
    ensures
        outcome(helper, ledger, to, data) == Ok::<Seq<u8>, CallError>(Seq::empty()),
{
    let first = Seq::<Reply>::empty().push(ledger(QueryView::Token { address: to }));
    assert(first.len() == 1);
    assert(first[0] == ledger(QueryView::Token { address: to }));
    reveal_with_fuel(outcome_after, 2);
}

/// A call about one token whose id is beyond 32 bits is not emulated, and
/// the ledger is not asked. This holds of `ownerOf` as of every function of
/// the proxy that takes a token id.
pub proof fn lemma_large_token_id_not_emulated(
    helper: HelperView,
    ledger: spec_fn(QueryView) -> Reply,
    data: Seq<u8>,
    entry: EntryView,
)
    requires
        matched_entry(helper.zksync_proxy, data) == Some(entry),
        entry.operation != Operation::NftBalanceOf,
        entry.inputs[0] == ParamKind::Uint256,
        be_value(argument_word(arguments(data), 0)) > u32::MAX,
    ensures
        emulated(helper, helper.zksync_proxy_address, data, Seq::empty()) == not_emulated(),
        outcome(helper, ledger, helper.zksync_proxy_address, data) == Ok::<Seq<u8>, CallError>(
            Seq::empty(),
        ),
{
}

/// For a token that the ledger has, `tokenURI` returns the string
/// `ipfs://` followed by the content identifier of the token's content
/// hash, and decoding that identifier gives the 34 bytes of the multihash.
pub proof fn lemma_token_uri(
    helper: HelperView,
    ledger: spec_fn(QueryView) -> Reply,
    data: Seq<u8>,
    entry: EntryView,
    nft: NftRecord,
)
    requires
        matched_entry(helper.zksync_proxy, data) == Some(entry),
        entry.operation == Operation::TokenUri,
        entry.inputs[0] == ParamKind::Uint256,
        be_value(argument_word(arguments(data), 0)) <= u32::MAX,
        ledger(QueryView::Nft { id: be_value(argument_word(arguments(data), 0)) as u32 })
            == Reply::Nft(Some(nft)),
    ensures
        outcome(helper, ledger, helper.zksync_proxy_address, data) == Ok::<Seq<u8>, CallError>(
            string_encoding(token_uri(nft.content_hash@)),
        ),
        token_uri(nft.content_hash@) == "ipfs://"@ + cid_text(nft.content_hash@),
        base58_decode(cid_text(nft.content_hash@), 34) == seq![18u8, 32u8] + nft.content_hash@,
{
    let query = QueryView::Nft { id: be_value(argument_word(arguments(data), 0)) as u32 };
    let first = Seq::<Reply>::empty().push(ledger(query));
    assert(first.len() == 1);
    assert(first[0] == ledger(query));
    reveal_with_fuel(outcome_after, 2);
    lemma_multihash_fits(nft.content_hash@);
    lemma_base58_round_trip(multihash(nft.content_hash@));
}

/// `balanceOf` on the proxy returns the number of tokens that the ledger
/// counts for the address: zero for an address that owns none.
pub proof fn lemma_proxy_balance_of(
    helper: HelperView,
    ledger: spec_fn(QueryView) -> Reply,
    data: Seq<u8>,
    entry: EntryView,
    count: u32,
)
    requires
        matched_entry(helper.zksync_proxy, data) == Some(entry),
        entry.operation == Operation::NftBalanceOf,
        entry.inputs[0] == ParamKind::Address,
        ledger(QueryView::NftBalance { address: argument_word(arguments(data), 0).subrange(12, 32) })
            == Reply::NftBalance(count),
    ensures
        outcome(helper, ledger, helper.zksync_proxy_address, data) == Ok::<Seq<u8>, CallError>(
            number_encoding(count as nat),
        ),
{
    let query = QueryView::NftBalance {
        address: argument_word(arguments(data), 0).subrange(12, 32),
    };
    let first = Seq::<Reply>::empty().push(ledger(query));
    assert(first.len() == 1);
    assert(first[0] == ledger(query));
    reveal_with_fuel(outcome_after, 2);
}

/// `totalSupply` and `allowance` of a fungible token return the largest
/// number that a word holds, every byte of it 255, whatever their arguments
/// and whatever the ledger holds.
pub proof fn lemma_total_supply_and_allowance(
    helper: HelperView,
    ledger: spec_fn(QueryView) -> Reply,
    to: Seq<u8>,
    data: Seq<u8>,
    entry: EntryView,
    token: TokenRecord,
)
    requires
        to != helper.zksync_proxy_address,
        ledger(QueryView::Token { address: to }) == Reply::Token(Some(token)),
        !token.is_nft,
        matched_entry(helper.erc20, data) == Some(entry),
        entry.operation == Operation::TotalSupply || entry.operation == Operation::Allowance,
    ensures
        outcome(helper, ledger, to, data) == Ok::<Seq<u8>, CallError>(max_encoding()),
        max_encoding() == Seq::new(32, |i: int| 255u8),
{
    let first = Seq::<Reply>::empty().push(ledger(QueryView::Token { address: to }));
    assert(first.len() == 1);
    assert(first[0] == ledger(QueryView::Token { address: to }));
    reveal_with_fuel(outcome_after, 2);
    assert forall|i: int| 0 <= i < 32 implies max_encoding()[i] == 255u8 by {
        lemma_byte_at_largest(32, (31 - i) as nat);
    }
    assert(max_encoding() =~= Seq::new(32, |i: int| 255u8));
}

/// Whether two replies say the same thing.
pub open spec fn reply_alike(first: Reply, second: Reply) -> bool {
    match (first, second) {
        (Reply::Token(Some(one)), Reply::Token(Some(other))) => {
            &&& one.id == other.id
            &&& one.symbol@ == other.symbol@
            &&& one.decimals == other.decimals
            &&& one.is_nft == other.is_nft
        },
        (Reply::Token(None), Reply::Token(None)) => true,
        (Reply::Nft(Some(one)), Reply::Nft(Some(other))) => {
            &&& one.id == other.id
            &&& one.creator_id == other.creator_id
            &&& one.creator_address@ == other.creator_address@
            &&& one.serial_id == other.serial_id
            &&& one.content_hash@ == other.content_hash@
        },
        (Reply::Nft(None), Reply::Nft(None)) => true,
        (Reply::NftOwner(one), Reply::NftOwner(other)) => one@ == other@,
        (Reply::NftBalance(one), Reply::NftBalance(other)) => one == other,
        (Reply::LastBlock(one), Reply::LastBlock(other)) => one == other,
        (Reply::Balance(one), Reply::Balance(other)) => one@ == other@,
        (Reply::Failed, Reply::Failed) => true,
        _ => false,
    }
}

/// Whether two runs of replies say the same thing, reply by reply.
pub open spec fn replies_alike(first: Seq<Reply>, second: Seq<Reply>) -> bool {
    &&& first.len() == second.len()
    &&& forall|i: int| 0 <= i < first.len() ==> reply_alike(#[trigger] first[i], second[i])
}

/// A call stands where it stands by what the replies say, and by nothing else.
pub proof fn lemma_alike_replies_same_step(
    helper: HelperView,
    to: Seq<u8>,
    data: Seq<u8>,
    first: Seq<Reply>,
    second: Seq<Reply>,
)
    requires
        replies_alike(first, second),
    ensures
        emulated(helper, to, data, first) == emulated(helper, to, data, second),
{
    if first.len() > 0 {
        assert(reply_alike(first[0], second[0]));
        let first_rest = first.skip(1);
        let second_rest = second.skip(1);
        if first_rest.len() > 0 {
            assert(reply_alike(first[1], second[1]));
            assert(first_rest[0] == first[1] && second_rest[0] == second[1]);
            if first_rest.len() > 1 {
                assert(reply_alike(first[2], second[2]));
                assert(first_rest[1] == first[2] && second_rest[1] == second[2]);
            }
        }
    }
}

proof fn lemma_alike_replies_same_outcome(
    helper: HelperView,
    one: spec_fn(QueryView) -> Reply,
    other: spec_fn(QueryView) -> Reply,
    to: Seq<u8>,
    data: Seq<u8>,
    first: Seq<Reply>,
    second: Seq<Reply>,
    patience: nat,
)
    requires
        forall|query: QueryView| reply_alike(#[trigger] one(query), other(query)),
        replies_alike(first, second),
    ensures
        outcome_after(helper, one, to, data, first, patience) == outcome_after(
            helper,
            other,
            to,
            data,
            second,
            patience,
        ),
    decreases patience,
{
    lemma_alike_replies_same_step(helper, to, data, first, second);
    match emulated(helper, to, data, first) {
        StepView::Done(_) => {},
        StepView::Ask(query) => {
            if patience > 0 {
                assert(reply_alike(one(query), other(query)));
                lemma_alike_replies_same_outcome(
                    helper,
                    one,
                    other,
                    to,
                    data,
                    first.push(one(query)),
                    second.push(other(query)),
                    (patience - 1) as nat,
                );
            }
        },
    }
}

/// A call made again on a ledger that answers every question as before
/// returns the same bytes, or fails as before.
pub proof fn lemma_same_answers_same_outcome(
    helper: HelperView,
    one: spec_fn(QueryView) -> Reply,
    other: spec_fn(QueryView) -> Reply,
    to: Seq<u8>,
    data: Seq<u8>,
)
    requires
        forall|query: QueryView| reply_alike(#[trigger] one(query), other(query)),
    ensures
        outcome(helper, one, to, data) == outcome(helper, other, to, data),
{
    lemma_alike_replies_same_outcome(
        helper,
        one,
        other,
        to,
        data,
        Seq::empty(),
        Seq::empty(),
        3,
    );
}

} // verus!
