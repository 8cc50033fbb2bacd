//! Base-58 text over a fixed alphabet, and the content identifiers built on it.
use crate::number::{
    be_bytes, be_value, lemma_be_value_bound, lemma_be_value_concat, lemma_be_value_prefix,
    lemma_byte_at_be_value, lemma_pow256_increases, pow256,
};
use vstd::prelude::*;

verus! {

/// The 58 characters of the alphabet, in digit order.
pub const ALPHABET: &'static str = "123456789ABCDEFGHJKLMNPQRSTUVWXYZabcdefghijkmnopqrstuvwxyz";

/// The alphabet as a sequence of characters: digit `d` is written `alphabet()[d]`.
pub open spec fn alphabet() -> Seq<char> {
    "123456789ABCDEFGHJKLMNPQRSTUVWXYZabcdefghijkmnopqrstuvwxyz"@
}

/// The text that a sequence of digits is written as.
pub open spec fn alphabet_text(indices: Seq<u8>) -> Seq<char> {
    Seq::new(indices.len(), |i: int| alphabet()[indices[i] as int])
}

/// The alphabet has 58 characters, all of them ASCII.
pub proof fn lemma_alphabet_shape()
    ensures
        alphabet().len() == 58,
        forall|i: int| 0 <= i < 58 ==> (#[trigger] alphabet()[i]) as u32 <= 0x7f,
        forall|i: int| 0 <= i < 58 ==> '\0' <= (#[trigger] alphabet()[i]) <= '\u{7f}',
{
    reveal_strlit("123456789ABCDEFGHJKLMNPQRSTUVWXYZabcdefghijkmnopqrstuvwxyz");
}

/// `String::push` appends the given character to the end of the string.
pub assume_specification[ String::push ](text: &mut String, letter: char)
    ensures
        final(text)@ == old(text)@.push(letter),
;

/// Writes each digit as its character of the alphabet.
pub fn to_alphabet(indices: &[u8]) -> (output: String)
    requires
        forall|i: int| 0 <= i < indices@.len() ==> indices@[i] < 58,
    ensures
        output@ == alphabet_text(indices@),
{
    let table = ALPHABET.as_bytes();
    proof {
        lemma_alphabet_shape();
        reveal_strlit("123456789ABCDEFGHJKLMNPQRSTUVWXYZabcdefghijkmnopqrstuvwxyz");
        vstd::string::is_ascii_spec_bytes(ALPHABET);
        assert forall|d: int| 0 <= d < 58 implies (#[trigger] table@[d]) as char == alphabet()[d] by {
            let letter = alphabet()[d];
            assert(letter as u32 <= 0x7f);
            assert(table@[d] == letter as u8);
            assert((letter as u8) as char == letter);
        }
    }
    let mut output = String::new();
    let mut k: usize = 0;
    while k < indices.len()
        invariant
            k <= indices@.len(),
            table@.len() == 58,
            forall|i: int| 0 <= i < indices@.len() ==> indices@[i] < 58,
            forall|d: int| 0 <= d < 58 ==> (#[trigger] table@[d]) as char == alphabet()[d],
            output@ == alphabet_text(indices@.subrange(0, k as int)),
        decreases indices@.len() - k,
    {
        let digit = indices[k];
        let letter = table[digit as usize] as char;
        output.push(letter);
        assert(output@ =~= alphabet_text(indices@.subrange(0, k + 1)));
        k += 1;
    }
    assert(indices@.subrange(0, k as int) == indices@);
    output
}

/// 58 to the power `n`.
pub open spec fn pow58(n: nat) -> nat
    decreases n,
{
    if n == 0 {
        1
    } else {
        58 * pow58((n - 1) as nat)
    }
}

/// The base-58 digit of `value` at `place`, place 0 being the least significant.
pub open spec fn digit_at(value: nat, place: nat) -> nat
    decreases place,
{
    if place == 0 {
        value % 58
    } else {
        digit_at(value / 58, (place - 1) as nat)
    }
}

/// Every base-58 digit is below 58.
pub proof fn lemma_digit_at_small(value: nat, place: nat)
    ensures
        digit_at(value, place) < 58,
    decreases place,
{
    if place > 0 {
        lemma_digit_at_small(value / 58, (place - 1) as nat);
    }
}

/// The 46 base-58 digits of `value`, most significant first, zeros in front.
pub open spec fn base58_digits(value: nat) -> Seq<u8> {
    Seq::new(46, |i: int| digit_at(value, (45 - i) as nat) as u8)
}

/// Whether the number that `source` denotes can be written in 46 base-58 digits.
pub open spec fn fits_base58(source: Seq<u8>) -> bool {
    be_value(source) < pow58(46)
}

/// The base-58 text of a byte sequence: its number in 46 digits, each written
/// as its character of the alphabet.
pub open spec fn base58_text(source: Seq<u8>) -> Seq<char> {
    alphabet_text(base58_digits(be_value(source)))
}

/// The number held by the lowest `count` places of an accumulator whose
/// place 0 is the least significant.
spec fn le_sum(digits: Seq<u8>, count: nat) -> nat
    decreases count,
{
    if count == 0 {
        0
    } else {
        le_sum(digits, (count - 1) as nat) + digits[count - 1] as nat * pow58((count - 1) as nat)
    }
}

proof fn lemma_le_sum_frame(a: Seq<u8>, b: Seq<u8>, count: nat)
    requires
        forall|i: int| 0 <= i < count ==> a[i] == b[i],
    ensures
        le_sum(a, count) == le_sum(b, count),
    decreases count,
{
    if count > 0 {
        lemma_le_sum_frame(a, b, (count - 1) as nat);
    }
}

proof fn lemma_le_sum_zeros(a: Seq<u8>, low: nat, high: nat)
    requires
        low <= high,
        forall|i: int| low <= i < high ==> a[i] == 0,
    ensures
        le_sum(a, high) == le_sum(a, low),
    decreases high,
{
    if low < high {
        lemma_le_sum_zeros(a, low, (high - 1) as nat);
    }
}

proof fn lemma_le_sum_shift(a: Seq<u8>, count: nat)
    requires
        1 <= count <= a.len(),
    ensures
        le_sum(a, count) == a[0] as nat + 58 * le_sum(a.skip(1), (count - 1) as nat),
    decreases count,
{
    if count == 1 {
        assert(le_sum(a, 0) == 0);
        assert(pow58(0) == 1);
        assert(le_sum(a.skip(1), 0) == 0);
    } else {
        lemma_le_sum_shift(a, (count - 1) as nat);
        let tail = a.skip(1);
        let top = a[count - 1] as nat;
        let place = pow58((count - 2) as nat);
        let inner = le_sum(tail, (count - 2) as nat);
        assert(tail[count - 2] == a[count - 1]);
        assert(pow58((count - 1) as nat) == 58 * place);
        assert(le_sum(tail, (count - 1) as nat) == inner + top * place);
        assert(58 * (inner + top * place) == 58 * inner + top * (58 * place)) by (nonlinear_arith);
    }
}

proof fn lemma_digit_at_le_sum(a: Seq<u8>, count: nat, place: nat)
    requires
        place < count <= a.len(),
        forall|i: int| 0 <= i < count ==> a[i] < 58,
    ensures
        digit_at(le_sum(a, count), place) == a[place as int],
    decreases place,
{
    lemma_le_sum_shift(a, count);
    let rest = le_sum(a.skip(1), (count - 1) as nat);
    let whole = le_sum(a, count);
    assert(whole == a[0] as nat + 58 * rest);
    if place == 0 {
        assert(whole % 58 == a[0] as nat);
    } else {
        assert(whole / 58 == rest);
        lemma_digit_at_le_sum(a.skip(1), (count - 1) as nat, (place - 1) as nat);
    }
}

/// `pow58` never decreases, and is never zero.
pub proof fn lemma_pow58_increases(low: nat, high: nat)
    requires
        low <= high,
    ensures
        0 < pow58(low) <= pow58(high),
    decreases high,
{
    if high == 0 {
    } else if low < high {
        lemma_pow58_increases(low, (high - 1) as nat);
    } else {
        lemma_pow58_increases((low - 1) as nat, (high - 1) as nat);
    }
}

/// Every byte sequence of at most 33 bytes fits the 46 digits.
pub proof fn lemma_short_source_fits(source: Seq<u8>)
    requires
        source.len() <= 33,
    ensures
        fits_base58(source),
{
    lemma_be_value_bound(source);
    assert(pow256(source.len()) <= pow256(33)) by {
        lemma_pow256_increases(source.len(), 33);
    }
    assert(pow256(33) < pow58(46)) by {
        reveal_with_fuel(pow256, 34);
        reveal_with_fuel(pow58, 47);
    }
}

/// The text of every byte sequence has 46 characters, all of them ASCII.
pub proof fn lemma_base58_text_shape(source: Seq<u8>)
    ensures
        base58_text(source).len() == 46,
        vstd::utf8::is_ascii_chars(base58_text(source)),
{
    lemma_alphabet_shape();
    let digits = base58_digits(be_value(source));
    let text = base58_text(source);
    assert forall|i: int| 0 <= i < text.len() implies '\0' <= #[trigger] text[i] <= '\u{7f}' by {
        lemma_digit_at_small(be_value(source), (45 - i) as nat);
        assert(digits[i] < 58);
        assert(text[i] == alphabet()[digits[i] as int]);
    }
}

/// Writes a byte sequence, read as one number with its most significant
/// byte first, as 46 base-58 digits over the alphabet. Leading zero bytes
/// add nothing to the number and so leave no trace in the text.
pub fn to_base58(source: &[u8]) -> (text: String)
    requires
        fits_base58(source@),
    ensures
        text@ == base58_text(source@),
{
    let mut digits: [u8; 46] = [0; 46];
    let mut digit_length: usize = 1;
    let mut k: usize = 0;
    assert(le_sum(digits@, 1) == 0) by {
        assert(digits@[0] == 0);
        assert(le_sum(digits@, 0) == 0);
        assert(digits@[0] as nat * pow58(0) == 0) by (nonlinear_arith)
            requires
                digits@[0] == 0,
        ;
    }
    assert(source@.subrange(0, 0).len() == 0);
    while k < source.len()
        invariant
            k <= source@.len(),
            1 <= digit_length <= 46,
            fits_base58(source@),
            forall|i: int| 0 <= i < 46 ==> digits@[i] < 58,
            forall|i: int| digit_length <= i < 46 ==> digits@[i] == 0,
            le_sum(digits@, digit_length as nat) == be_value(source@.subrange(0, k as int)),
        decreases source@.len() - k,
    {
        let ghost before = digits@;
        let ghost held = le_sum(before, digit_length as nat);
        let ghost total = 256 * held + source@[k as int] as nat;
        proof {
            assert(source@.subrange(0, k + 1).drop_last() == source@.subrange(0, k as int));
            assert(total == be_value(source@.subrange(0, k + 1)));
            lemma_be_value_prefix(source@, k + 1);
            assert(le_sum(before, 0) == 0);
            assert(pow58(0) == 1);
        }
        let mut carry: u32 = source[k] as u32;
        let mut j: usize = 0;
        while j < digit_length
            invariant
                j <= digit_length <= 46,
                carry <= 255,
                held == le_sum(before, digit_length as nat),
                before.len() == 46,
                forall|i: int| 0 <= i < 46 ==> before[i] < 58,
                forall|i: int| digit_length <= i < 46 ==> before[i] == 0,
                forall|i: int| 0 <= i < 46 ==> digits@[i] < 58,
                forall|i: int| j <= i < 46 ==> #[trigger] digits@[i] == before[i],
                le_sum(digits@, j as nat) + pow58(j as nat) * carry + 256 * (held - le_sum(
                    before,
                    j as nat,
                )) == total,
            decreases digit_length - j,
        {
            let ghost earlier = digits@;
            let ghost carry_in = carry as int;
            let ghost digit = before[j as int] as int;
            let ghost place = pow58(j as nat) as int;
            carry += (digits[j] as u32) * 256;
            let ghost carry_mid = carry as int;
            digits[j] = (carry % 58) as u8;
            let ghost low = (carry % 58) as int;
            carry /= 58;
            proof {
                lemma_le_sum_frame(digits@, earlier, j as nat);
                assert(pow58((j + 1) as nat) == 58 * place);
                assert(le_sum(digits@, (j + 1) as nat) == le_sum(digits@, j as nat) + low * place);
                assert(le_sum(before, (j + 1) as nat) == le_sum(before, j as nat) + digit * place);
                assert(low * place + (58 * place) * (carry as int) == place * carry_in + 256 * (
                digit * place)) by (nonlinear_arith)
                    requires
                        carry_mid == carry_in + 256 * digit,
                        carry_mid == 58 * (carry as int) + low,
                ;
            }
            j += 1;
        }
        while carry > 0
            invariant
                1 <= digit_length <= 46,
                carry <= 255,
                total < pow58(46),
                forall|i: int| 0 <= i < 46 ==> digits@[i] < 58,
                forall|i: int| digit_length <= i < 46 ==> digits@[i] == 0,
                le_sum(digits@, digit_length as nat) + pow58(digit_length as nat) * carry == total,
            decreases carry,
        {
            let ghost earlier = digits@;
            let ghost carry_in = carry as int;
            let ghost place = pow58(digit_length as nat) as int;
            proof {
                if digit_length == 46 {
                    assert(place * carry_in >= place) by (nonlinear_arith)
                        requires
                            carry_in >= 1,
                            place >= 0,
                    ;
                    assert(false);
                }
            }
            digits[digit_length] = (carry % 58) as u8;
            let ghost low = (carry % 58) as int;
            digit_length += 1;
            carry /= 58;
            proof {
                lemma_le_sum_frame(digits@, earlier, (digit_length - 1) as nat);
                assert(pow58(digit_length as nat) == 58 * place);
                assert(le_sum(digits@, digit_length as nat) == le_sum(
                    digits@,
                    (digit_length - 1) as nat,
                ) + low * place);
                assert(low * place + (58 * place) * (carry as int) == place * carry_in)
                    by (nonlinear_arith)
                    requires
                        carry_in == 58 * (carry as int) + low,
                ;
            }
        }
        k += 1;
    }
    let ghost value = be_value(source@);
    proof {
        assert(source@.subrange(0, k as int) == source@);
        lemma_le_sum_zeros(digits@, digit_length as nat, 46);
        assert forall|place: int| 0 <= place < 46 implies digits@[place] as nat == digit_at(
            value,
            place as nat,
        ) by {
            lemma_digit_at_le_sum(digits@, 46, place as nat);
        }
    }
    let mut result: Vec<u8> = Vec::new();
    let mut left: usize = 46;
    while left > 0
        invariant
            left <= 46,
            result@.len() == 46 - left,
            forall|i: int| 0 <= i < result@.len() ==> result@[i] == digits@[45 - i],
        decreases left,
    {
        left -= 1;
        result.push(digits[left]);
    }
    assert(result@ =~= base58_digits(value));
    to_alphabet(result.as_slice())
}

/// The two bytes that announce a SHA-256 digest of 32 bytes.
pub const SHA256_MULTI_HASH: [u8; 2] = [18, 32];

/// A digest behind the two bytes that say which hash made it and how long it is.
pub open spec fn multihash(digest: Seq<u8>) -> Seq<u8> {
    seq![18u8, 32u8] + digest
}

/// The content identifier of a digest: the base-58 text of its multihash.
pub open spec fn cid_text(digest: Seq<u8>) -> Seq<char> {
    base58_text(multihash(digest))
}

/// The multihash of a digest of 32 bytes always fits the 46 digits.
pub proof fn lemma_multihash_fits(digest: Seq<u8>)
    requires
        digest.len() == 32,
    ensures
        fits_base58(multihash(digest)),
{
    let head = seq![18u8, 32u8];
    lemma_be_value_concat(head, digest);
    lemma_be_value_bound(digest);
    assert(be_value(head) == 0x1220) by {
        assert(head.drop_last() == seq![18u8]);
        assert(seq![18u8].drop_last() == Seq::<u8>::empty());
        reveal_with_fuel(be_value, 3);
    }
    let unit = pow256(32);
    assert(unit == 0x1_0000_0000_0000_0000_0000_0000_0000_0000_0000_0000_0000_0000_0000_0000_0000_0000)
        by {
        reveal_with_fuel(pow256, 33);
    }
    assert(pow58(46) == 1311256650531604040683918106085433325685010428206934077445436201506164705899577344)
        by {
        reveal_with_fuel(pow58, 47);
    }
    assert(0x1220 * unit + be_value(digest) < 0x1221 * unit);
}

/// The content identifier of a 32-byte digest.
pub fn ipfs_cid(source: &[u8; 32]) -> (text: String)
    ensures
        text@ == cid_text(source@),
{
    let mut concat: Vec<u8> = Vec::new();
    concat.push(SHA256_MULTI_HASH[0]);
    concat.push(SHA256_MULTI_HASH[1]);
    let mut k: usize = 0;
    while k < 32
        invariant
            k <= 32,
            concat@ == seq![18u8, 32u8] + source@.subrange(0, k as int),
        decreases 32 - k,
    {
        concat.push(source[k]);
        k += 1;
    }
    proof {
        assert(source@.subrange(0, 32) == source@);
        lemma_multihash_fits(source@);
    }
    to_base58(concat.as_slice())
}

/// The digit that a character of the alphabet stands for.
pub open spec fn alphabet_index(letter: char) -> int {
    choose|d: int| 0 <= d < 58 && alphabet()[d] == letter
}

/// The number that a base-58 text denotes, most significant digit first.
pub open spec fn text_value(text: Seq<char>) -> nat
    decreases text.len(),
{
    if text.len() == 0 {
        0
    } else {
        58 * text_value(text.drop_last()) + alphabet_index(text.last()) as nat
    }
}

/// The `len` bytes that a base-58 text stands for.
pub open spec fn base58_decode(text: Seq<char>, len: nat) -> Seq<u8> {
    be_bytes(text_value(text), len)
}

/// No character occurs twice in the alphabet.
pub proof fn lemma_alphabet_distinct()
    ensures
        forall|d: int| 0 <= d < 58 ==> alphabet_index(#[trigger] alphabet()[d]) == d,
{
    reveal_strlit("123456789ABCDEFGHJKLMNPQRSTUVWXYZabcdefghijkmnopqrstuvwxyz");
    assert forall|d: int| 0 <= d < 58 implies alphabet_index(#[trigger] alphabet()[d]) == d by {
        let found = alphabet_index(alphabet()[d]);
        assert(0 <= found < 58 && alphabet()[found] == alphabet()[d]);
        assert(forall|a: int, b: int|
            0 <= a < b < 58 ==> (#[trigger] alphabet()[a]) as u32 != (#[trigger] alphabet()[b]) as u32);
    }
}

proof fn lemma_text_value_of_digits(value: nat, count: nat)
    requires
        value < pow58(count),
    ensures
        text_value(alphabet_text(Seq::new(count, |i: int| digit_at(value, (count - 1 - i) as nat) as u8)))
            == value,
    decreases count,
{
    let digits = Seq::new(count, |i: int| digit_at(value, (count - 1 - i) as nat) as u8);
    let text = alphabet_text(digits);
    if count > 0 {
        let fewer = Seq::new((count - 1) as nat, |i: int| digit_at(value / 58, (count - 2 - i) as nat) as u8);
        lemma_text_value_of_digits(value / 58, (count - 1) as nat);
        assert(text.drop_last() =~= alphabet_text(fewer)) by {
            assert forall|i: int| 0 <= i < count - 1 implies digits[i] == fewer[i] by {
                assert(digit_at(value, (count - 1 - i) as nat) == digit_at(
                    value / 58,
                    (count - 2 - i) as nat,
                ));
            }
        }
        lemma_alphabet_distinct();
        assert(digits[count - 1] as nat == value % 58);
        assert(text.last() == alphabet()[(value % 58) as int]);
    }
}

/// Decoding what was encoded gives the bytes back, for every byte sequence
/// that the 46 digits can hold, when the decoder is told how many bytes there
/// were. The text itself does not keep that count: leading zero bytes
/// change nothing in it.
pub proof fn lemma_base58_round_trip(source: Seq<u8>)
    requires
        fits_base58(source),
    ensures
        text_value(base58_text(source)) == be_value(source),
        base58_decode(base58_text(source), source.len()) == source,
{
    lemma_text_value_of_digits(be_value(source), 46);
    let back = base58_decode(base58_text(source), source.len());
    assert forall|i: int| 0 <= i < source.len() implies back[i] == source[i] by {
        lemma_byte_at_be_value(source, (source.len() - 1 - i) as nat);
    }
    assert(back =~= source);
}

/// Two byte sequences of one length with the same text are the same bytes.
pub proof fn lemma_base58_injective(first: Seq<u8>, second: Seq<u8>)
    requires
        fits_base58(first),
        fits_base58(second),
        first.len() == second.len(),
        base58_text(first) == base58_text(second),
    ensures
        first == second,
{
    lemma_base58_round_trip(first);
    lemma_base58_round_trip(second);
}

/// A zero byte in front changes neither the number nor the text.
pub proof fn lemma_leading_zero_leaves_no_trace(source: Seq<u8>)
    ensures
        be_value(seq![0u8] + source) == be_value(source),
        base58_text(seq![0u8] + source) == base58_text(source),
{
    lemma_be_value_concat(seq![0u8], source);
    assert(be_value(seq![0u8]) == 0) by {
        assert(seq![0u8].drop_last() == Seq::<u8>::empty());
        reveal_with_fuel(be_value, 2);
    }
    assert(0 * pow256(source.len()) == 0) by (nonlinear_arith);
}

} // verus!
