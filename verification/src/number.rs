//! Byte sequences read as numbers, most significant byte first.
use vstd::prelude::*;

verus! {

/// 256 to the power `n`.
pub open spec fn pow256(n: nat) -> nat
    decreases n,
{
    if n == 0 {
        1
    } else {
        256 * pow256((n - 1) as nat)
    }
}

/// The number that a byte sequence denotes, most significant byte first.
pub open spec fn be_value(bytes: Seq<u8>) -> nat
    decreases bytes.len(),
{
    if bytes.len() == 0 {
        0
    } else {
        256 * be_value(bytes.drop_last()) + bytes.last() as nat
    }
}

/// The base-256 digit of `value` at `place`, place 0 being the least significant.
pub open spec fn byte_at(value: nat, place: nat) -> nat
    decreases place,
{
    if place == 0 {
        value % 256
    } else {
        byte_at(value / 256, (place - 1) as nat)
    }
}

/// The `len` lowest bytes of `value`, most significant first.
pub open spec fn be_bytes(value: nat, len: nat) -> Seq<u8> {
    Seq::new(len, |i: int| byte_at(value, (len - 1 - i) as nat) as u8)
}

/// A byte sequence denotes less than 256 to the power of its length.
pub proof fn lemma_be_value_bound(bytes: Seq<u8>)
    ensures
        be_value(bytes) < pow256(bytes.len()),
    decreases bytes.len(),
{
    if bytes.len() > 0 {
        lemma_be_value_bound(bytes.drop_last());
    }
}

/// What the first `count` bytes denote is no more than what all of them denote.
pub proof fn lemma_be_value_prefix(bytes: Seq<u8>, count: int)
    requires
        0 <= count <= bytes.len(),
    ensures
        be_value(bytes.subrange(0, count)) <= be_value(bytes),
    decreases bytes.len() - count,
{
    if count == bytes.len() {
        assert(bytes.subrange(0, count) == bytes);
    } else {
        lemma_be_value_prefix(bytes, count + 1);
        assert(bytes.subrange(0, count + 1).drop_last() == bytes.subrange(0, count));
    }
}

/// What two byte sequences denote when one is written after the other.
pub proof fn lemma_be_value_concat(front: Seq<u8>, back: Seq<u8>)
    ensures
        be_value(front + back) == be_value(front) * pow256(back.len()) + be_value(back),
    decreases back.len(),
{
    if back.len() == 0 {
        assert(front + back == front);
        assert(be_value(front) * 1 == be_value(front)) by (nonlinear_arith);
    } else {
        lemma_be_value_concat(front, back.drop_last());
        assert((front + back).drop_last() == front + back.drop_last());
        let high = be_value(front);
        let shorter = pow256((back.len() - 1) as nat);
        let low = be_value(back.drop_last());
        assert(256 * (high * shorter + low) == high * (256 * shorter) + 256 * low)
            by (nonlinear_arith);
    }
}

/// The byte at a place of the number that a byte sequence denotes is the
/// byte that stands at that place.
pub proof fn lemma_byte_at_be_value(bytes: Seq<u8>, place: nat)
    requires
        place < bytes.len(),
    ensures
        byte_at(be_value(bytes), place) == bytes[bytes.len() - 1 - place],
    decreases place,
{
    if place > 0 {
        lemma_byte_at_be_value(bytes.drop_last(), (place - 1) as nat);
    }
}

/// Reading the bytes of a number back from the number gives the same bytes.
pub proof fn lemma_be_bytes_of_be_value(bytes: Seq<u8>)
    ensures
        be_bytes(be_value(bytes), bytes.len()) == bytes,
{
    let back = be_bytes(be_value(bytes), bytes.len());
    assert forall|i: int| 0 <= i < bytes.len() implies back[i] == bytes[i] by {
        lemma_byte_at_be_value(bytes, (bytes.len() - 1 - i) as nat);
    }
    assert(back =~= bytes);
}

/// A byte sequence denotes zero exactly when every byte of it is zero.
pub proof fn lemma_be_value_zero(bytes: Seq<u8>)
    ensures
        be_value(bytes) == 0 <==> (forall|i: int| 0 <= i < bytes.len() ==> bytes[i] == 0),
    decreases bytes.len(),
{
    if bytes.len() > 0 {
        let front = bytes.drop_last();
        lemma_be_value_zero(front);
        if be_value(bytes) == 0 {
            assert forall|i: int| 0 <= i < bytes.len() implies bytes[i] == 0 by {
                if i < bytes.len() - 1 {
                    assert(front[i] == bytes[i]);
                }
            }
        } else if be_value(front) != 0 {
            let i = choose|i: int| 0 <= i < front.len() && front[i] != 0;
            assert(bytes[i] == front[i]);
        }
    }
}

/// `pow256` is never zero.
pub proof fn lemma_pow256_positive(n: nat)
    ensures
        pow256(n) > 0,
    decreases n,
{
    if n > 0 {
        lemma_pow256_positive((n - 1) as nat);
    }
}

/// `pow256` never decreases.
pub proof fn lemma_pow256_increases(low: nat, high: nat)
    requires
        low <= high,
    ensures
        pow256(low) <= pow256(high),
    decreases high,
{
    if low < high {
        lemma_pow256_increases(low, (high - 1) as nat);
        lemma_pow256_positive((high - 1) as nat);
    }
}

/// A number of 32 bytes, most significant byte first.
pub type Word = [u8; 32];

/// The word that holds `value`.
pub fn word_from_u64(value: u64) -> (word: Word)
    ensures
        word@ == be_bytes(value as nat, 32),
{
    let mut word: Word = [0; 32];
    let mut rest: u64 = value;
    let mut place: usize = 0;
    while place < 32
        invariant
            place <= 32,
            forall|p: nat|
                p >= place ==> #[trigger] byte_at(value as nat, p) == byte_at(
                    rest as nat,
                    (p - place) as nat,
                ),
            forall|i: int|
                32 - place <= i < 32 ==> (#[trigger] word@[i]) as nat == byte_at(
                    value as nat,
                    (31 - i) as nat,
                ),
        decreases 32 - place,
    {
        proof {
            assert(byte_at(value as nat, place as nat) == byte_at(rest as nat, 0));
        }
        word[31 - place] = (rest % 256) as u8;
        rest = rest / 256;
        place += 1;
    }
    assert(word@ =~= be_bytes(value as nat, 32));
    word
}

/// Every byte of the largest number of `len` bytes is 255.
pub proof fn lemma_byte_at_largest(len: nat, place: nat)
    requires
        place < len,
    ensures
        pow256(len) >= 1,
        byte_at((pow256(len) - 1) as nat, place) == 255,
    decreases place,
{
    lemma_pow256_positive(len);
    lemma_pow256_positive((len - 1) as nat);
    let shorter = pow256((len - 1) as nat);
    assert(pow256(len) - 1 == 256 * (shorter - 1) + 255);
    if place > 0 {
        lemma_byte_at_largest((len - 1) as nat, (place - 1) as nat);
        assert((pow256(len) - 1) / 256 == shorter - 1);
    }
}

/// The largest word: every bit set.
pub fn word_max() -> (word: Word)
    ensures
        word@ == be_bytes((pow256(32) - 1) as nat, 32),
{
    let word: Word = [0xff; 32];
    proof {
        assert forall|i: int| 0 <= i < 32 implies word@[i] == be_bytes(
            (pow256(32) - 1) as nat,
            32,
        )[i] by {
            lemma_byte_at_largest(32, (31 - i) as nat);
        }
        assert(word@ =~= be_bytes((pow256(32) - 1) as nat, 32));
    }
    word
}

/// The number in a word, where it is no more than `u32::MAX`.
pub fn word_to_u32(word: &Word) -> (small: Option<u32>)
    ensures
        small is Some <==> be_value(word@) <= u32::MAX,
        small matches Some(value) ==> value == be_value(word@),
{
    let mut value: u64 = 0;
    let mut k: usize = 0;
    assert(word@.subrange(0, 0).len() == 0);
    while k < 32
        invariant
            k <= 32,
            value <= u32::MAX,
            value == be_value(word@.subrange(0, k as int)),
        decreases 32 - k,
    {
        proof {
            assert(word@.subrange(0, k + 1).drop_last() == word@.subrange(0, k as int));
            lemma_be_value_prefix(word@, k + 1);
        }
        value = value * 256 + word[k] as u64;
        if value > u32::MAX as u64 {
            return None;
        }
        k += 1;
    }
    assert(word@.subrange(0, 32) == word@);
    Some(value as u32)
}

/// The word that holds the number that `bytes` denote, where 32 bytes can hold it.
pub fn word_from_be_bytes(bytes: &[u8]) -> (fitted: Option<Word>)
    ensures
        fitted is Some <==> be_value(bytes@) < pow256(32),
        fitted matches Some(word) ==> word@ == be_bytes(be_value(bytes@), 32),
{
    let len = bytes.len();
    let extra: usize = if len > 32 {
        len - 32
    } else {
        0
    };
    let ghost front = bytes@.subrange(0, extra as int);
    let ghost back = bytes@.subrange(extra as int, len as int);
    proof {
        assert(bytes@ == front + back);
        lemma_be_value_concat(front, back);
        lemma_be_value_zero(front);
        lemma_be_value_bound(back);
    }
    let mut k: usize = 0;
    while k < extra
        invariant
            k <= extra <= len,
            len == bytes@.len(),
            forall|i: int| 0 <= i < k ==> bytes@[i] == 0,
            front == bytes@.subrange(0, extra as int),
            be_value(front) == 0 <==> (forall|i: int| 0 <= i < front.len() ==> front[i] == 0),
            be_value(bytes@) == be_value(front) * pow256(back.len()) + be_value(back),
            back.len() == len - extra,
            extra > 0 ==> back.len() == 32,
        decreases extra - k,
    {
        if bytes[k] != 0 {
            proof {
                assert(front[k as int] != 0);
                let high = be_value(front);
                let unit = pow256(32);
                assert(high * unit >= unit) by (nonlinear_arith)
                    requires
                        high >= 1,
                        unit >= 0,
                ;
            }
            return None;
        }
        k += 1;
    }
    let kept: usize = len - extra;
    let mut word: Word = [0; 32];
    let ghost zeros = word@;
    let mut i: usize = 0;
    while i < kept
        invariant
            i <= kept <= 32,
            kept == len - extra,
            len == bytes@.len(),
            forall|j: int| 0 <= j < 32 - kept ==> word@[j] == 0,
            forall|j: int|
                32 - kept <= j < 32 - kept + i ==> #[trigger] word@[j] == bytes@[extra + j - (32
                    - kept)],
        decreases kept - i,
    {
        word[32 - kept + i] = bytes[extra + i];
        i += 1;
    }
    proof {
        assert(be_value(front) == 0);
        assert(0 * pow256(back.len()) == 0) by (nonlinear_arith);
        let padding = word@.subrange(0, 32 - kept);
        assert(word@ == padding + back);
        lemma_be_value_concat(padding, back);
        lemma_be_value_zero(padding);
        assert(0 * pow256(back.len()) == 0) by (nonlinear_arith);
        assert(be_value(word@) == be_value(bytes@));
        lemma_be_bytes_of_be_value(word@);
        lemma_be_value_bound(word@);
    }
    Some(word)
}

} // verus!
