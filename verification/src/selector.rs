//! Selectors: the four bytes by which a call names the function it is for.
use crate::abi::{canonical_text, FunctionSignature, ParamKind};
use crate::number::{be_value, lemma_be_bytes_of_be_value, lemma_be_value_bound, pow256};
use vstd::prelude::*;
use vstd::utf8::encode_utf8;

verus! {

/// The Keccak-256 digest of a byte sequence.
pub uninterp spec fn keccak256_digest(data: Seq<u8>) -> Seq<u8>;

/// `tiny_keccak::keccak256`: the Keccak-256 digest of `data`, 32 bytes.
#[verifier::external_body]
pub(crate) fn keccak256(data: &[u8]) -> (digest: [u8; 32])
    ensures
        digest@ == keccak256_digest(data@),
{
    tiny_keccak::keccak256(data)
}

/// The first four bytes of a digest.
pub type Selector = [u8; 4];

/// The selector of a function: the first four bytes of the digest of its
/// canonical text.
pub open spec fn selector_bytes(name: Seq<char>, inputs: Seq<ParamKind>) -> Seq<u8> {
    keccak256_digest(encode_utf8(canonical_text(name, inputs))).subrange(0, 4)
}

/// The number under which a table files a selector: its bytes read as one
/// number, most significant first.
pub open spec fn selector_key(selector: Seq<u8>) -> u32 {
    (be_value(selector) % 0x1_0000_0000) as u32
}

/// Two selectors with one key are the same four bytes: the key is the
/// selector, written as a number.
pub proof fn lemma_selector_key_injective(first: Seq<u8>, second: Seq<u8>)
    requires
        first.len() == 4,
        second.len() == 4,
        selector_key(first) == selector_key(second),
    ensures
        first == second,
{
    lemma_be_value_bound(first);
    lemma_be_value_bound(second);
    assert(pow256(4) == 0x1_0000_0000) by {
        reveal_with_fuel(pow256, 5);
    }
    lemma_be_bytes_of_be_value(first);
    lemma_be_bytes_of_be_value(second);
}

impl FunctionSignature {
    /// The selector of this function.
    pub fn selector(&self) -> (selector: Selector)
        ensures
            selector@ == selector_bytes(self.name@, self.inputs@),
    {
        let text = self.canonical();
        let digest = keccak256(text.as_str().as_bytes());
        let selector: Selector = [digest[0], digest[1], digest[2], digest[3]];
        assert(selector@ =~= digest@.subrange(0, 4));
        selector
    }
}

/// The key of the four bytes that `data` begins with.
pub fn leading_key(data: &[u8]) -> (key: u32)
    requires
        data@.len() >= 4,
    ensures
        key == selector_key(data@.subrange(0, 4)),
{
    let ghost head = data@.subrange(0, 4);
    let mut key: u32 = 0;
    let mut k: usize = 0;
    assert(head.subrange(0, 0).len() == 0);
    while k < 4
        invariant
            k <= 4,
            data@.len() >= 4,
            head == data@.subrange(0, 4),
            key == be_value(head.subrange(0, k as int)),
        decreases 4 - k,
    {
        proof {
            assert(head.subrange(0, k + 1).drop_last() == head.subrange(0, k as int));
            lemma_be_value_bound(head.subrange(0, k + 1));
            reveal_with_fuel(pow256, 5);
        }
        key = key * 256 + data[k] as u32;
        k += 1;
    }
    assert(head.subrange(0, 4) == head);
    key
}

/// The key of a selector.
pub fn key_of(selector: &Selector) -> (key: u32)
    ensures
        key == selector_key(selector@),
{
    let key = leading_key(selector.as_slice());
    assert(selector@.subrange(0, 4) == selector@);
    key
}

} // verus!
