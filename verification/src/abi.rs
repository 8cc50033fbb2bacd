//! Values, parameter kinds and function signatures of the contract ABI, and
//! what their encodings are.
use crate::number::{be_bytes, Word};
use vstd::prelude::*;
use vstd::utf8::encode_utf8;

verus! {

/// An account or contract address: 20 bytes.
pub type Address = [u8; 20];

/// The type of a parameter. The functions that are emulated take nothing else.
#[derive(Clone, Copy, Debug, PartialEq, Eq, Structural)]
pub enum ParamKind {
    Address,
    Uint256,
}

/// A value as it is passed to or returned from a contract function.
#[derive(Clone, Debug)]
pub enum AbiValue {
    Address(Address),
    Uint(Word),
    FixedBytes(Word),
    Str(String),
}

/// The name under which a parameter kind appears in a signature.
pub open spec fn kind_name(kind: ParamKind) -> Seq<char> {
    match kind {
        ParamKind::Address => "address"@,
        ParamKind::Uint256 => "uint256"@,
    }
}

/// `n` zero bytes.
pub open spec fn zeros(n: nat) -> Seq<u8> {
    Seq::new(n, |i: int| 0u8)
}

/// `bytes` followed by as few zero bytes as bring the length to a multiple of 32.
pub open spec fn right_padded(bytes: Seq<u8>) -> Seq<u8> {
    bytes + zeros(((32 - bytes.len() % 32) % 32) as nat)
}

/// How an address is returned: right-aligned in a word.
pub open spec fn address_encoding(address: Seq<u8>) -> Seq<u8> {
    zeros(12) + address
}

/// The most bytes that a string can have and still be encoded: with more,
/// the offsets of the encoding no longer fit 32 bits.
pub const MAX_TEXT_BYTES: usize = 0xffff_ffa0;

/// How a string is returned: the offset of its body, which is one word, then
/// the number of its bytes, then the bytes, padded.
pub open spec fn string_encoding(text: Seq<char>) -> Seq<u8> {
    let bytes = encode_utf8(text);
    be_bytes(32, 32) + be_bytes(bytes.len(), 32) + right_padded(bytes)
}

/// Whether a value can be encoded: a string must not be longer than
/// `MAX_TEXT_BYTES`.
pub open spec fn encodable(value: AbiValue) -> bool {
    value matches AbiValue::Str(text) ==> encode_utf8(text@).len() <= MAX_TEXT_BYTES
}

/// The bytes that a contract returns for a single value.
pub open spec fn abi_encoding(value: AbiValue) -> Seq<u8> {
    match value {
        AbiValue::Address(address) => address_encoding(address@),
        AbiValue::Uint(word) => word@,
        AbiValue::FixedBytes(word) => word@,
        AbiValue::Str(text) => string_encoding(text@),
    }
}

/// Whether `value` is what a word of call data holds for a parameter of `kind`.
/// Of an address only the last 20 bytes of the word count.
pub open spec fn decodes_to(kind: ParamKind, word: Seq<u8>, value: AbiValue) -> bool {
    match kind {
        ParamKind::Address => value matches AbiValue::Address(address) && address@
            == word.subrange(12, 32),
        ParamKind::Uint256 => value matches AbiValue::Uint(number) && number@ == word,
    }
}

/// The word of `data` that holds the argument at `index`.
pub open spec fn argument_word(data: Seq<u8>, index: int) -> Seq<u8> {
    data.subrange(32 * index, 32 * index + 32)
}

/// Whether `data` is long enough to hold one word for each of `count` parameters.
pub open spec fn holds_arguments(count: nat, data: Seq<u8>) -> bool {
    data.len() >= 32 * count
}

/// `ethabi::encode`, called on one token. The contract states the bytes that
/// it returns for each kind of value held here: a number and a fixed run of
/// 32 bytes as they are, an address behind twelve zero bytes, a string as an
/// offset word, a length word and the padded bytes. It leaves out a string
/// of more than `MAX_TEXT_BYTES` bytes, for which the encoder's 32-bit
/// offsets overflow.
#[verifier::external_body]
pub(crate) fn abi_encode(value: &AbiValue) -> (encoded: Vec<u8>)
    requires
        encodable(*value),
    ensures
        encoded@ == abi_encoding(*value),
{
    let token = match value {
        AbiValue::Address(address) => ethabi::Token::Address(ethabi::Address::from(*address)),
        AbiValue::Uint(word) => ethabi::Token::Uint(ethabi::Uint::from(*word)),
        AbiValue::FixedBytes(word) => ethabi::Token::FixedBytes(word.to_vec()),
        AbiValue::Str(text) => ethabi::Token::String(text.clone()),
    };
    ethabi::encode(&[token])
}

/// `ethabi::decode`, called with the types that `kinds` stand for. The
/// contract states that it succeeds exactly when `data` holds one word for
/// each parameter, and that each value is read from its word; what follows
/// the last word is ignored.
#[verifier::external_body]
pub(crate) fn abi_decode(kinds: &Vec<ParamKind>, data: &[u8]) -> (decoded: Option<Vec<AbiValue>>)
    ensures
        decoded is Some <==> holds_arguments(kinds@.len(), data@),
        decoded matches Some(values) ==> values@.len() == kinds@.len() && forall|i: int|
            0 <= i < kinds@.len() ==> decodes_to(
                kinds@[i],
                argument_word(data@, i),
                #[trigger] values@[i],
            ),
{
    let types: Vec<ethabi::ParamType> = kinds.iter().map(|kind| match kind {
        ParamKind::Address => ethabi::ParamType::Address,
        ParamKind::Uint256 => ethabi::ParamType::Uint(256),
    }).collect();
    let tokens = ethabi::decode(&types, data).ok()?;
    tokens.into_iter().map(|token| match token {
        ethabi::Token::Address(address) => Some(AbiValue::Address(address.0)),
        ethabi::Token::Uint(number) => Some(AbiValue::Uint(number.into())),
        _ => None,
    }).collect()
}

/// The `to_string` of `ethabi::ParamType`, which writes a type as it stands
/// in a signature: `address`, and `uint` followed by the number of bits.
#[verifier::external_body]
pub(crate) fn param_type_name(kind: ParamKind) -> (name: String)
    ensures
        name@ == kind_name(kind),
{
    match kind {
        ParamKind::Address => ethabi::ParamType::Address,
        ParamKind::Uint256 => ethabi::ParamType::Uint(256),
    }.to_string()
}

/// A function of a contract: its name and the kinds of its parameters, in order.
#[derive(Clone, Debug)]
pub struct FunctionSignature {
    pub name: String,
    pub inputs: Vec<ParamKind>,
}

/// The parameter kinds of a signature, written one after another with a
/// comma between each two.
pub open spec fn joined_kinds(kinds: Seq<ParamKind>) -> Seq<char>
    decreases kinds.len(),
{
    if kinds.len() == 0 {
        Seq::empty()
    } else if kinds.len() == 1 {
        kind_name(kinds[0])
    } else {
        joined_kinds(kinds.drop_last()) + ","@ + kind_name(kinds.last())
    }
}

/// The canonical text of a signature: the name, then the parameter kinds in
/// round brackets, with no blank anywhere.
pub open spec fn canonical_text(name: Seq<char>, inputs: Seq<ParamKind>) -> Seq<char> {
    name + "("@ + joined_kinds(inputs) + ")"@
}

impl FunctionSignature {
    /// The canonical text of this signature.
    pub fn canonical(&self) -> (text: String)
        ensures
            text@ == canonical_text(self.name@, self.inputs@),
    {
        let mut text = self.name.clone();
        text.append("(");
        let mut k: usize = 0;
        while k < self.inputs.len()
            invariant
                k <= self.inputs@.len(),
                text@ == self.name@ + "("@ + joined_kinds(self.inputs@.subrange(0, k as int)),
            decreases self.inputs@.len() - k,
        {
            let ghost upto = self.inputs@.subrange(0, k + 1);
            assert(upto.drop_last() == self.inputs@.subrange(0, k as int));
            if k > 0 {
                text.append(",");
            }
            let name = param_type_name(self.inputs[k]);
            text.append(name.as_str());
            assert(text@ == self.name@ + "("@ + joined_kinds(upto));
            k += 1;
        }
        assert(self.inputs@.subrange(0, k as int) == self.inputs@);
        text.append(")");
        text
    }
}

} // verus!
