use web3_calls::abi::{FunctionSignature, ParamKind, MAX_TEXT_BYTES};
use web3_calls::calls::{get_nft, CallsHelper, NftLookup};
use web3_calls::ledger::{CallError, NftRecord, Query, Reply, Step, TokenRecord};

const PROXY: [u8; 20] = [0x10, 0, 0, 0, 0, 0, 0, 0, 0, 0, 0, 0, 0, 0, 0, 0, 0, 0, 0, 0];
const DAI: [u8; 20] = [0xda; 20];
const NFT_ADDRESS: [u8; 20] = [0x4e; 20];
const NOBODY: [u8; 20] = [0x99; 20];
const ALICE: [u8; 20] = [0xa1; 20];
const BOB: [u8; 20] = [0xb0; 20];

fn function(name: &str, inputs: Vec<ParamKind>) -> FunctionSignature {
    FunctionSignature { name: name.to_string(), inputs }
}

fn helper() -> CallsHelper {
    let erc20 = vec![
        function("name", vec![]),
        function("symbol", vec![]),
        function("decimals", vec![]),
        function("totalSupply", vec![]),
        function("balanceOf", vec![ParamKind::Address]),
        function("allowance", vec![ParamKind::Address, ParamKind::Address]),
    ];
    let proxy = vec![
        function("creatorId", vec![ParamKind::Uint256]),
        function("creatorAddress", vec![ParamKind::Uint256]),
        function("serialId", vec![ParamKind::Uint256]),
        function("contentHash", vec![ParamKind::Uint256]),
        function("tokenURI", vec![ParamKind::Uint256]),
        function("balanceOf", vec![ParamKind::Address]),
        function("ownerOf", vec![ParamKind::Uint256]),
        function("getApproved", vec![ParamKind::Uint256]),
    ];
    CallsHelper::new(erc20, proxy, PROXY)
}

fn content_hash() -> [u8; 32] {
    let mut hash = [0u8; 32];
    for (i, byte) in hash.iter_mut().enumerate() {
        *byte = 0xf0 ^ (i as u8).wrapping_mul(7);
    }
    hash
}

fn nft() -> NftRecord {
    NftRecord {
        id: 70_000,
        creator_id: 17,
        creator_address: ALICE,
        serial_id: 3,
        content_hash: content_hash(),
    }
}

fn dai() -> TokenRecord {
    TokenRecord { id: 1, symbol: "DAI".to_string(), decimals: 18, is_nft: false }
}

/// A small ledger: one fungible token, one non-fungible token owned by Bob.
fn ledger(query: &Query) -> Reply {
    match query {
        Query::Token { address } if *address == DAI => Reply::Token(Some(dai())),
        Query::Token { address } if *address == NFT_ADDRESS => Reply::Token(Some(TokenRecord {
            id: 70_000,
            symbol: "NFT-70000".to_string(),
            decimals: 0,
            is_nft: true,
        })),
        Query::Token { .. } => Reply::Token(None),
        Query::Nft { id } if *id == 70_000 => Reply::Nft(Some(nft())),
        Query::Nft { .. } => Reply::Nft(None),
        Query::NftOwner { id } if *id == 70_000 => Reply::NftOwner(BOB),
        Query::NftOwner { .. } => Reply::Failed,
        Query::NftBalance { address } if *address == BOB => Reply::NftBalance(5),
        Query::NftBalance { .. } => Reply::NftBalance(0),
        Query::LastBlock => Reply::LastBlock(42),
        Query::Balance { address, block, token } if *address == ALICE && *block == 42 && *token == 1 => {
            Reply::Balance(vec![0x0d, 0xe0, 0xb6, 0xb3, 0xa7, 0x64, 0x00, 0x00])
        }
        Query::Balance { .. } => Reply::Balance(vec![]),
    }
}

fn failing(_query: &Query) -> Reply {
    Reply::Failed
}

fn unasked(query: &Query) -> Reply {
    panic!("the ledger was asked {:?}", query)
}

fn run(
    helper: &CallsHelper,
    ledger: fn(&Query) -> Reply,
    to: [u8; 20],
    data: &[u8],
) -> (Result<Vec<u8>, CallError>, Vec<Query>) {
    let mut asked = Vec::new();
    let mut replies = Vec::new();
    loop {
        match helper.execute(to, data, &replies) {
            Step::Done(result) => return (result, asked),
            Step::Ask(query) => {
                assert!(asked.len() < 3, "more than three questions");
                replies.push(ledger(&query));
                asked.push(query);
            }
        }
    }
}

fn call(selector: [u8; 4], words: &[[u8; 32]]) -> Vec<u8> {
    let mut data = selector.to_vec();
    for word in words {
        data.extend_from_slice(word);
    }
    data
}

fn number(value: u64) -> [u8; 32] {
    let mut word = [0u8; 32];
    word[24..].copy_from_slice(&value.to_be_bytes());
    word
}

fn address_word(address: [u8; 20]) -> [u8; 32] {
    let mut word = [0u8; 32];
    word[12..].copy_from_slice(&address);
    word
}

fn selector(name: &str, inputs: Vec<ParamKind>) -> [u8; 4] {
    function(name, inputs).selector()
}

#[test]
fn short_payload_is_not_emulated_for_any_destination() {
    let helper = helper();
    for len in 0..4usize {
        let data = vec![0x70u8, 0xa0, 0x82, 0x31][..len].to_vec();
        assert_eq!(run(&helper, unasked, PROXY, &data).0, Ok(vec![]));
        let (result, asked) = run(&helper, ledger, DAI, &data);
        assert_eq!(result, Ok(vec![]));
        assert_eq!(asked, vec![Query::Token { address: DAI }]);
        assert_eq!(run(&helper, ledger, NOBODY, &data).0, Ok(vec![]));
        assert_eq!(run(&helper, ledger, NFT_ADDRESS, &data).0, Ok(vec![]));
    }
}

#[test]
fn unknown_selector_is_not_emulated() {
    let helper = helper();
    // transfer(address,uint256)
    let data = call([0xa9, 0x05, 0x9c, 0xbb], &[address_word(BOB), number(1)]);
    assert_eq!(run(&helper, unasked, PROXY, &data).0, Ok(vec![]));
    assert_eq!(run(&helper, ledger, DAI, &data).0, Ok(vec![]));
    // a selector of the proxy is unknown to a token contract, and the other way round
    let owner_of = call(selector("ownerOf", vec![ParamKind::Uint256]), &[number(70_000)]);
    assert_eq!(run(&helper, ledger, DAI, &owner_of).0, Ok(vec![]));
    let decimals = call(selector("decimals", vec![]), &[]);
    assert_eq!(run(&helper, unasked, PROXY, &decimals).0, Ok(vec![]));
}

#[test]
fn owner_of_with_an_id_beyond_32_bits_is_not_emulated() {
    let helper = helper();
    let select = selector("ownerOf", vec![ParamKind::Uint256]);
    let data = call(select, &[number(1 << 32)]);
    assert_eq!(run(&helper, unasked, PROXY, &data), (Ok(vec![]), vec![]));
    let data = call(select, &[[0xff; 32]]);
    assert_eq!(run(&helper, unasked, PROXY, &data), (Ok(vec![]), vec![]));
    // the largest id that the ledger can have is asked for
    let data = call(select, &[number(u32::MAX as u64)]);
    let (result, asked) = run(&helper, ledger, PROXY, &data);
    assert_eq!(result, Ok(vec![]));
    assert_eq!(asked, vec![Query::Nft { id: u32::MAX }]);
}

#[test]
fn owner_of_returns_the_present_owner() {
    let helper = helper();
    let data = call(selector("ownerOf", vec![ParamKind::Uint256]), &[number(70_000)]);
    let (result, asked) = run(&helper, ledger, PROXY, &data);
    assert_eq!(result, Ok(address_word(BOB).to_vec()));
    assert_eq!(asked, vec![Query::Nft { id: 70_000 }, Query::NftOwner { id: 70_000 }]);
}

#[test]
fn token_uri_is_the_encoded_ipfs_address() {
    let helper = helper();
    let data = call(selector("tokenURI", vec![ParamKind::Uint256]), &[number(70_000)]);
    let (result, asked) = run(&helper, ledger, PROXY, &data);
    let output = result.unwrap();
    assert_eq!(asked, vec![Query::Nft { id: 70_000 }]);

    let mut multihash = vec![0x12u8, 0x20];
    multihash.extend_from_slice(&content_hash());
    let uri = format!("ipfs://{}", bs58::encode(&multihash).into_string());
    assert_eq!(uri.len(), 53);
    assert_eq!(output, ethabi::encode(&[ethabi::Token::String(uri.clone())]));

    // offset word, length word, two words of text
    assert_eq!(output.len(), 128);
    assert_eq!(&output[..32], &number(32)[..]);
    assert_eq!(&output[32..64], &number(53)[..]);
    assert_eq!(&output[64..117], uri.as_bytes());
    assert!(output[117..].iter().all(|byte| *byte == 0));

    // reading the text back and undoing the base-58 step gives the multihash
    let decoded = ethabi::decode(&[ethabi::ParamType::String], &output).unwrap();
    let text = decoded[0].clone().into_string().unwrap();
    let back = bs58::decode(text.strip_prefix("ipfs://").unwrap()).into_vec().unwrap();
    assert_eq!(back, multihash);
}

#[test]
fn proxy_balance_of_counts_the_owned_tokens() {
    let helper = helper();
    let select = selector("balanceOf", vec![ParamKind::Address]);
    let (result, asked) = run(&helper, ledger, PROXY, &call(select, &[address_word(ALICE)]));
    assert_eq!(result, Ok(number(0).to_vec()));
    assert_eq!(asked, vec![Query::NftBalance { address: ALICE }]);
    let (result, asked) = run(&helper, ledger, PROXY, &call(select, &[address_word(BOB)]));
    assert_eq!(result, Ok(number(5).to_vec()));
    assert_eq!(asked, vec![Query::NftBalance { address: BOB }]);
}

#[test]
fn address_argument_ignores_the_upper_twelve_bytes() {
    let helper = helper();
    let select = selector("balanceOf", vec![ParamKind::Address]);
    let mut word = address_word(BOB);
    word[0] = 0xff;
    word[11] = 0x01;
    let (result, asked) = run(&helper, ledger, PROXY, &call(select, &[word]));
    assert_eq!(result, Ok(number(5).to_vec()));
    assert_eq!(asked, vec![Query::NftBalance { address: BOB }]);
}

#[test]
fn total_supply_and_allowance_are_always_the_largest_number() {
    let helper = helper();
    let max = vec![0xffu8; 32];
    let total = selector("totalSupply", vec![]);
    assert_eq!(run(&helper, ledger, DAI, &call(total, &[])).0, Ok(max.clone()));
    assert_eq!(run(&helper, ledger, DAI, &call(total, &[number(7)])).0, Ok(max.clone()));
    let allowance = selector("allowance", vec![ParamKind::Address, ParamKind::Address]);
    let data = call(allowance, &[address_word(ALICE), address_word(BOB)]);
    assert_eq!(run(&helper, ledger, DAI, &data).0, Ok(max.clone()));
    let data = call(allowance, &[address_word(NOBODY), address_word(NOBODY)]);
    assert_eq!(run(&helper, ledger, DAI, &data).0, Ok(max.clone()));
    assert_eq!(max, ethabi::encode(&[ethabi::Token::Uint(ethabi::Uint::max_value())]));
}

#[test]
fn allowance_without_its_arguments_is_not_emulated() {
    let helper = helper();
    let allowance = selector("allowance", vec![ParamKind::Address, ParamKind::Address]);
    assert_eq!(run(&helper, ledger, DAI, &call(allowance, &[])).0, Ok(vec![]));
    assert_eq!(run(&helper, ledger, DAI, &call(allowance, &[address_word(ALICE)])).0, Ok(vec![]));
    let mut data = call(allowance, &[address_word(ALICE), address_word(BOB)]);
    data.pop();
    assert_eq!(run(&helper, ledger, DAI, &data).0, Ok(vec![]));
}

#[test]
fn repeated_calls_give_identical_bytes() {
    let helper = helper();
    let calls: Vec<([u8; 20], Vec<u8>)> = vec![
        (PROXY, call(selector("tokenURI", vec![ParamKind::Uint256]), &[number(70_000)])),
        (PROXY, call(selector("ownerOf", vec![ParamKind::Uint256]), &[number(70_000)])),
        (DAI, call(selector("balanceOf", vec![ParamKind::Address]), &[address_word(ALICE)])),
        (DAI, call(selector("symbol", vec![]), &[])),
        (NOBODY, call(selector("symbol", vec![]), &[])),
    ];
    for (to, data) in calls {
        let first = run(&helper, ledger, to, &data);
        let second = run(&helper, ledger, to, &data);
        let third = run(&helper.clone(), ledger, to, &data);
        assert_eq!(first, second);
        assert_eq!(first, third);
    }
}

#[test]
fn name_and_symbol_both_return_the_symbol() {
    let helper = helper();
    let mut expected = number(32).to_vec();
    expected.extend_from_slice(&number(3));
    let mut text = [0u8; 32];
    text[..3].copy_from_slice(b"DAI");
    expected.extend_from_slice(&text);
    assert_eq!(run(&helper, ledger, DAI, &call(selector("name", vec![]), &[])).0, Ok(expected.clone()));
    assert_eq!(run(&helper, ledger, DAI, &call(selector("symbol", vec![]), &[])).0, Ok(expected));
}

#[test]
fn decimals_returns_the_stored_count() {
    let helper = helper();
    let (result, asked) = run(&helper, ledger, DAI, &call(selector("decimals", vec![]), &[]));
    assert_eq!(result, Ok(number(18).to_vec()));
    assert_eq!(asked, vec![Query::Token { address: DAI }]);
}

#[test]
fn fungible_balance_of_asks_for_the_block_and_then_the_balance() {
    let helper = helper();
    let select = selector("balanceOf", vec![ParamKind::Address]);
    let (result, asked) = run(&helper, ledger, DAI, &call(select, &[address_word(ALICE)]));
    assert_eq!(result, Ok(number(1_000_000_000_000_000_000).to_vec()));
    assert_eq!(
        asked,
        vec![
            Query::Token { address: DAI },
            Query::LastBlock,
            Query::Balance { address: ALICE, block: 42, token: 1 },
        ]
    );
    // an account that holds nothing
    let (result, _) = run(&helper, ledger, DAI, &call(select, &[address_word(BOB)]));
    assert_eq!(result, Ok(number(0).to_vec()));
}

#[test]
fn balance_beyond_256_bits_is_an_internal_error() {
    let helper = helper();
    let data = call(selector("balanceOf", vec![ParamKind::Address]), &[address_word(ALICE)]);
    let start = vec![Reply::Token(Some(dai())), Reply::LastBlock(42)];

    let mut replies = start.clone();
    let mut too_large = vec![1u8];
    too_large.extend_from_slice(&[0u8; 32]);
    replies.push(Reply::Balance(too_large));
    assert_eq!(helper.execute(DAI, &data, &replies), Step::Done(Err(CallError::Internal)));

    let mut replies = start.clone();
    replies.push(Reply::Balance(vec![0xff; 32]));
    assert_eq!(helper.execute(DAI, &data, &replies), Step::Done(Ok(vec![0xff; 32])));

    // zero bytes in front do not make the number larger
    let mut replies = start.clone();
    let mut padded = vec![0u8; 5];
    padded.extend_from_slice(&[0xff; 32]);
    replies.push(Reply::Balance(padded));
    assert_eq!(helper.execute(DAI, &data, &replies), Step::Done(Ok(vec![0xff; 32])));

    let mut replies = start;
    replies.push(Reply::Balance(vec![0x01, 0x02]));
    assert_eq!(helper.execute(DAI, &data, &replies), Step::Done(Ok(number(0x0102).to_vec())));
}

#[test]
fn a_failing_ledger_gives_an_internal_error() {
    let helper = helper();
    let calls: Vec<([u8; 20], Vec<u8>)> = vec![
        (DAI, call(selector("symbol", vec![]), &[])),
        (DAI, vec![]),
        (PROXY, call(selector("tokenURI", vec![ParamKind::Uint256]), &[number(70_000)])),
        (PROXY, call(selector("balanceOf", vec![ParamKind::Address]), &[address_word(BOB)])),
    ];
    for (to, data) in calls {
        assert_eq!(run(&helper, failing, to, &data).0, Err(CallError::Internal));
    }
    // each later question can fail too
    let data = call(selector("balanceOf", vec![ParamKind::Address]), &[address_word(ALICE)]);
    let replies = vec![Reply::Token(Some(dai())), Reply::Failed];
    assert_eq!(helper.execute(DAI, &data, &replies), Step::Done(Err(CallError::Internal)));
    let replies = vec![Reply::Token(Some(dai())), Reply::LastBlock(42), Reply::Failed];
    assert_eq!(helper.execute(DAI, &data, &replies), Step::Done(Err(CallError::Internal)));
    let data = call(selector("ownerOf", vec![ParamKind::Uint256]), &[number(70_000)]);
    let replies = vec![Reply::Nft(Some(nft())), Reply::Failed];
    assert_eq!(helper.execute(PROXY, &data, &replies), Step::Done(Err(CallError::Internal)));
}

#[test]
fn an_answer_to_another_question_gives_an_internal_error() {
    let helper = helper();
    let data = call(selector("symbol", vec![]), &[]);
    assert_eq!(helper.execute(DAI, &data, &[Reply::LastBlock(1)]), Step::Done(Err(CallError::Internal)));
    let data = call(selector("ownerOf", vec![ParamKind::Uint256]), &[number(70_000)]);
    assert_eq!(
        helper.execute(PROXY, &data, &[Reply::Token(Some(dai()))]),
        Step::Done(Err(CallError::Internal))
    );
    assert_eq!(
        helper.execute(PROXY, &data, &[Reply::Nft(Some(nft())), Reply::NftBalance(1)]),
        Step::Done(Err(CallError::Internal))
    );
}

#[test]
fn a_non_fungible_token_has_no_contract_of_its_own() {
    let helper = helper();
    let data = call(selector("symbol", vec![]), &[]);
    let (result, asked) = run(&helper, ledger, NFT_ADDRESS, &data);
    assert_eq!(result, Ok(vec![]));
    assert_eq!(asked, vec![Query::Token { address: NFT_ADDRESS }]);
    let (result, asked) = run(&helper, ledger, NOBODY, &data);
    assert_eq!(result, Ok(vec![]));
    assert_eq!(asked, vec![Query::Token { address: NOBODY }]);
}

#[test]
fn arguments_that_cannot_be_decoded_are_not_emulated() {
    let helper = helper();
    let select = selector("ownerOf", vec![ParamKind::Uint256]);
    let mut data = call(select, &[number(70_000)]);
    data.pop();
    assert_eq!(run(&helper, unasked, PROXY, &data).0, Ok(vec![]));
    assert_eq!(run(&helper, unasked, PROXY, &select).0, Ok(vec![]));
    // what follows the arguments is ignored
    let mut data = call(select, &[number(70_000)]);
    data.extend_from_slice(&[1, 2, 3]);
    assert_eq!(run(&helper, ledger, PROXY, &data).0, Ok(address_word(BOB).to_vec()));
}

#[test]
fn records_of_a_token_are_returned_field_by_field() {
    let helper = helper();
    let argument = [number(70_000)];
    let ask = |name: &str| {
        let data = call(selector(name, vec![ParamKind::Uint256]), &argument);
        run(&helper, ledger, PROXY, &data).0
    };
    assert_eq!(ask("creatorId"), Ok(number(17).to_vec()));
    assert_eq!(ask("creatorAddress"), Ok(address_word(ALICE).to_vec()));
    assert_eq!(ask("serialId"), Ok(number(3).to_vec()));
    assert_eq!(ask("contentHash"), Ok(content_hash().to_vec()));
    assert_eq!(ask("getApproved"), Ok(address_word(PROXY).to_vec()));
}

#[test]
fn a_token_that_the_ledger_does_not_have_is_not_emulated() {
    let helper = helper();
    for name in ["creatorId", "creatorAddress", "serialId", "contentHash", "tokenURI", "ownerOf", "getApproved"] {
        let data = call(selector(name, vec![ParamKind::Uint256]), &[number(5)]);
        let (result, asked) = run(&helper, ledger, PROXY, &data);
        assert_eq!(result, Ok(vec![]));
        assert_eq!(asked, vec![Query::Nft { id: 5 }]);
    }
}

#[test]
fn owner_is_asked_for_the_id_of_the_record() {
    let helper = helper();
    let data = call(selector("ownerOf", vec![ParamKind::Uint256]), &[number(9)]);
    let mut record = nft();
    record.id = 10;
    assert_eq!(
        helper.execute(PROXY, &data, &[Reply::Nft(Some(record))]),
        Step::Ask(Query::NftOwner { id: 10 })
    );
}

#[test]
fn an_argument_of_the_wrong_kind_is_an_internal_error() {
    let erc20 = vec![function("balanceOf", vec![ParamKind::Uint256])];
    let proxy = vec![
        function("ownerOf", vec![ParamKind::Address]),
        function("balanceOf", vec![ParamKind::Uint256]),
    ];
    let helper = CallsHelper::new(erc20, proxy, PROXY);
    let data = call(selector("ownerOf", vec![ParamKind::Address]), &[address_word(BOB)]);
    assert_eq!(run(&helper, unasked, PROXY, &data).0, Err(CallError::Internal));
    let data = call(selector("balanceOf", vec![ParamKind::Uint256]), &[number(1)]);
    assert_eq!(run(&helper, unasked, PROXY, &data).0, Err(CallError::Internal));
    // the token contract asks for the block before it looks at the argument
    let (result, asked) = run(&helper, ledger, DAI, &data);
    assert_eq!(result, Err(CallError::Internal));
    assert_eq!(asked, vec![Query::Token { address: DAI }, Query::LastBlock]);
}

#[test]
fn a_function_filed_twice_is_found_once() {
    let erc20 = vec![function("decimals", vec![]), function("symbol", vec![]), function("decimals", vec![])];
    let helper = CallsHelper::new(erc20, vec![], PROXY);
    let data = call(selector("decimals", vec![]), &[]);
    assert_eq!(run(&helper, ledger, DAI, &data).0, Ok(number(18).to_vec()));
    assert_eq!(run(&helper, unasked, PROXY, &data).0, Ok(vec![]));
}

#[test]
fn replies_beyond_the_end_of_the_call_change_nothing() {
    let helper = helper();
    let data = call(selector("decimals", vec![]), &[]);
    let replies = vec![Reply::Token(Some(dai())), Reply::Failed, Reply::LastBlock(3)];
    assert_eq!(helper.execute(DAI, &data, &replies), Step::Done(Ok(number(18).to_vec())));
}

#[test]
fn a_symbol_that_is_not_ascii_is_encoded_by_its_bytes() {
    let helper = helper();
    let symbol = "ÐAI-€-0123456789-0123456789-0123456789".to_string();
    let token = TokenRecord { id: 2, symbol: symbol.clone(), decimals: 6, is_nft: false };
    let data = call(selector("symbol", vec![]), &[]);
    let step = helper.execute(DAI, &data, &[Reply::Token(Some(token))]);
    let bytes = symbol.as_bytes();
    assert!(bytes.len() > 32 && bytes.len() < 64);
    let mut expected = number(32).to_vec();
    expected.extend_from_slice(&number(bytes.len() as u64));
    expected.extend_from_slice(bytes);
    expected.resize(128, 0);
    assert_eq!(step, Step::Done(Ok(expected)));
}

#[test]
fn an_empty_symbol_has_no_body() {
    let helper = helper();
    let token = TokenRecord { id: 2, symbol: String::new(), decimals: 6, is_nft: false };
    let data = call(selector("name", vec![]), &[]);
    let step = helper.execute(DAI, &data, &[Reply::Token(Some(token))]);
    let mut expected = number(32).to_vec();
    expected.extend_from_slice(&number(0));
    assert_eq!(step, Step::Done(Ok(expected)));
    // a text of exactly one word is followed by no padding
    let symbol = "0123456789abcdef0123456789abcdef".to_string();
    let token = TokenRecord { id: 2, symbol: symbol.clone(), decimals: 6, is_nft: false };
    let step = helper.execute(DAI, &data, &[Reply::Token(Some(token))]);
    let mut expected = number(32).to_vec();
    expected.extend_from_slice(&number(32));
    expected.extend_from_slice(symbol.as_bytes());
    assert_eq!(step, Step::Done(Ok(expected)));
}

#[test]
fn an_id_beyond_32_bits_names_no_token_and_is_not_asked_for() {
    let replies = [Reply::Nft(Some(nft()))];
    for id in [1u64 << 32, (1 << 32) + 70_000, u64::MAX] {
        assert_eq!(get_nft(&number(id), &[]), NftLookup::Absent);
        assert_eq!(get_nft(&number(id), &replies), NftLookup::Absent);
    }
    assert_eq!(get_nft(&[0xff; 32], &[]), NftLookup::Absent);
    let mut high = [0u8; 32];
    high[0] = 1;
    assert_eq!(get_nft(&high, &replies), NftLookup::Absent);
}

#[test]
fn an_id_within_32_bits_is_asked_for_and_then_answered() {
    assert_eq!(get_nft(&number(0), &[]), NftLookup::Ask(Query::Nft { id: 0 }));
    assert_eq!(get_nft(&number(70_000), &[]), NftLookup::Ask(Query::Nft { id: 70_000 }));
    assert_eq!(
        get_nft(&number(u32::MAX as u64), &[]),
        NftLookup::Ask(Query::Nft { id: u32::MAX })
    );
    assert_eq!(get_nft(&number(70_000), &[Reply::Nft(Some(nft()))]), NftLookup::Found(nft()));
    assert_eq!(get_nft(&number(70_000), &[Reply::Nft(None)]), NftLookup::Absent);
    assert_eq!(get_nft(&number(70_000), &[Reply::Failed]), NftLookup::Failed);
    assert_eq!(get_nft(&number(70_000), &[Reply::LastBlock(1)]), NftLookup::Failed);
}

#[test]
fn a_long_symbol_is_encoded_with_its_full_length() {
    assert_eq!(MAX_TEXT_BYTES as u64, (1u64 << 32) - 96);
    let helper = helper();
    let symbol = "S".repeat(100_001);
    let token = TokenRecord { id: 2, symbol: symbol.clone(), decimals: 6, is_nft: false };
    let data = call(selector("symbol", vec![]), &[]);
    let step = helper.execute(DAI, &data, &[Reply::Token(Some(token))]);
    let mut expected = number(32).to_vec();
    expected.extend_from_slice(&number(100_001));
    expected.extend_from_slice(symbol.as_bytes());
    expected.resize(64 + 100_032, 0);
    assert_eq!(step, Step::Done(Ok(expected)));
}
