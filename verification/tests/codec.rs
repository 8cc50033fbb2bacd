use web3_calls::abi::{FunctionSignature, ParamKind};
use web3_calls::base58::{ipfs_cid, to_alphabet, to_base58};

#[test]
fn alphabet_maps_digits_to_characters() {
    assert_eq!(to_alphabet(&[0, 1, 8, 9, 32, 33, 57]), "129AZaz");
    assert_eq!(to_alphabet(&[]), "");
}

#[test]
fn base58_of_two_zero_bytes_is_all_ones() {
    let ones = "1".repeat(46);
    assert_eq!(to_base58(&[0x00, 0x00]), ones);
    assert_eq!(to_base58(&[0x00]), ones);
    assert_eq!(to_base58(&[]), ones);
}

#[test]
fn base58_pads_small_numbers_to_46_digits() {
    let text = to_base58(&[0x01]);
    assert_eq!(text.len(), 46);
    assert_eq!(&text[..45], "1".repeat(45));
    assert_eq!(&text[45..], "2");
    // 58 is written "21" in base 58
    let text = to_base58(&[58]);
    assert_eq!(&text[44..], "21");
    // 0x0100 = 256 = 4 * 58 + 24 -> digits 4, 24 -> "5R"
    let text = to_base58(&[0x01, 0x00]);
    assert_eq!(&text[43..], "15R");
}

#[test]
fn cid_of_zero_digest_matches_reference_decoder() {
    let digest = [0u8; 32];
    let cid = ipfs_cid(&digest);
    assert_eq!(cid.len(), 46);
    assert!(cid.starts_with("Qm"));
    let back = bs58::decode(&cid).into_vec().unwrap();
    let mut expected = vec![0x12u8, 0x20];
    expected.extend_from_slice(&digest);
    assert_eq!(back, expected);
}

#[test]
fn cid_round_trips_through_reference_decoder() {
    let mut digest = [0u8; 32];
    for (i, byte) in digest.iter_mut().enumerate() {
        *byte = (i as u8).wrapping_mul(37).wrapping_add(11);
    }
    let cid = ipfs_cid(&digest);
    let back = bs58::decode(&cid).into_vec().unwrap();
    assert_eq!(&back[..2], &[0x12, 0x20]);
    assert_eq!(&back[2..], &digest[..]);
    assert_eq!(bs58::encode(&back).into_string(), cid);
}

#[test]
fn selector_of_balance_of_is_the_well_known_one() {
    let function = FunctionSignature { name: "balanceOf".to_string(), inputs: vec![ParamKind::Address] };
    assert_eq!(function.canonical(), "balanceOf(address)");
    assert_eq!(function.selector(), [0x70, 0xa0, 0x82, 0x31]);
}

#[test]
fn selectors_of_the_fungible_surface() {
    let make = |name: &str, inputs: Vec<ParamKind>| FunctionSignature { name: name.to_string(), inputs };
    assert_eq!(make("name", vec![]).selector(), [0x06, 0xfd, 0xde, 0x03]);
    assert_eq!(make("symbol", vec![]).selector(), [0x95, 0xd8, 0x9b, 0x41]);
    assert_eq!(make("decimals", vec![]).selector(), [0x31, 0x3c, 0xe5, 0x67]);
    assert_eq!(make("totalSupply", vec![]).selector(), [0x18, 0x16, 0x0d, 0xdd]);
    let allowance = make("allowance", vec![ParamKind::Address, ParamKind::Address]);
    assert_eq!(allowance.canonical(), "allowance(address,address)");
    assert_eq!(allowance.selector(), [0xdd, 0x62, 0xed, 0x3e]);
    let owner_of = make("ownerOf", vec![ParamKind::Uint256]);
    assert_eq!(owner_of.canonical(), "ownerOf(uint256)");
    assert_eq!(owner_of.selector(), [0x63, 0x52, 0x21, 0x1e]);
}

/// Reads a text back into `len` bytes, digit by digit.
fn decode(text: &str, len: usize) -> Vec<u8> {
    let alphabet = "123456789ABCDEFGHJKLMNPQRSTUVWXYZabcdefghijkmnopqrstuvwxyz";
    let mut bytes = vec![0u8; len];
    for letter in text.chars() {
        let mut carry = alphabet.find(letter).unwrap() as u32;
        for byte in bytes.iter_mut().rev() {
            carry += *byte as u32 * 58;
            *byte = (carry % 256) as u8;
            carry /= 256;
        }
        assert_eq!(carry, 0);
    }
    bytes
}

#[test]
fn decoding_with_the_length_gives_the_bytes_back() {
    let sources: Vec<Vec<u8>> = vec![
        vec![0x00],
        vec![0x00, 0x00],
        vec![0x01],
        vec![0xff],
        vec![0x00, 0x01, 0x00],
        b"hello world".to_vec(),
        (0u8..33).collect(),
        vec![0xff; 33],
        vec![0x80; 20],
    ];
    for source in sources {
        let text = to_base58(&source);
        assert_eq!(text.len(), 46);
        assert_eq!(decode(&text, source.len()), source);
    }
}

#[test]
fn base58_of_known_texts() {
    assert_eq!(to_base58(b"hello world"), "1111111111111111111111111111111StV1DL6CwTryKyV");
    assert_eq!(to_base58(&[0xff; 33]), "2K3n5t4wSaF5mj27Tw9vStXWLWyRjjiH5Cp3CFLpKVCr1c");
    let mut digest = [0u8; 32];
    for (i, byte) in digest.iter_mut().enumerate() {
        *byte = i as u8;
    }
    assert_eq!(ipfs_cid(&digest), "QmNLfbof5rLekrACjeuLk9JmGZD2HDBHCU4z16iYKmx5SE");
}

#[test]
fn the_largest_number_of_46_digits_is_all_z() {
    let largest = [
        44u8, 60, 59, 195, 147, 16, 31, 151, 175, 95, 222, 0, 16, 215, 237, 238, 144, 138, 179, 37, 182,
        11, 148, 38, 81, 107, 213, 46, 63, 255, 255, 255, 255, 255,
    ];
    assert_eq!(to_base58(&largest), "z".repeat(46));
    assert_eq!(decode(&"z".repeat(46), 34), largest.to_vec());
}

#[test]
fn leading_zero_bytes_leave_no_trace() {
    let plain = to_base58(&[0x12, 0x34, 0x56]);
    assert_eq!(to_base58(&[0x00, 0x12, 0x34, 0x56]), plain);
    assert_eq!(to_base58(&[0x00, 0x00, 0x00, 0x12, 0x34, 0x56]), plain);
    // the canonical scheme writes one more '1' for each zero byte in front
    assert_ne!(
        bs58::encode(&[0x00, 0x12, 0x34, 0x56]).into_string(),
        bs58::encode(&[0x12, 0x34, 0x56]).into_string()
    );
}

#[test]
fn the_cid_of_every_digest_has_46_characters() {
    for fill in [0x00u8, 0x01, 0x7f, 0x80, 0xff] {
        let digest = [fill; 32];
        let cid = ipfs_cid(&digest);
        assert_eq!(cid.len(), 46);
        let mut multihash = vec![0x12u8, 0x20];
        multihash.extend_from_slice(&digest);
        assert_eq!(cid, bs58::encode(&multihash).into_string());
        assert_eq!(decode(&cid, 34), multihash);
    }
}
