//! Integers on the wire: 16-bit and 32-bit numbers in network order, and
//! 32-bit signed words in the machine's byte order.
use vstd::prelude::*;

verus! {

/// The two octets of a number, most significant first.
pub open spec fn be16_bytes(n: u16) -> Seq<u8> {
    seq![(n / 256) as u8, (n % 256) as u8]
}

/// The number in the two octets at `at`, most significant first.
pub open spec fn be16_at(bytes: Seq<u8>, at: int) -> u16 {
    (bytes[at] * 256 + bytes[at + 1]) as u16
}

/// The four octets of a number, most significant first.
pub open spec fn be32_bytes(n: u32) -> Seq<u8> {
    seq![
        (n / 0x100_0000) as u8,
        (n / 0x1_0000 % 256) as u8,
        (n / 0x100 % 256) as u8,
        (n % 256) as u8,
    ]
}

/// Reading gives back the number that was written.
pub proof fn law_be16_round_trip(n: u16, before: Seq<u8>, after: Seq<u8>)
    ensures
        be16_at(before + be16_bytes(n) + after, before.len() as int) == n,
{
    let bytes = before + be16_bytes(n) + after;
    let at = before.len() as int;
    assert(bytes[at] == be16_bytes(n)[0]);
    assert(bytes[at + 1] == be16_bytes(n)[1]);
}

/// The number in the two octets at `at`, if the message is long enough.
pub fn be16(bytes: &[u8], at: usize) -> (r: Option<u16>)
    ensures
        r == if at + 2 <= bytes@.len() {
            Some(be16_at(bytes@, at as int))
        } else {
            None
        },
{
    if bytes.len() < 2 || at > bytes.len() - 2 {
        return None;
    }
    Some(bytes[at] as u16 * 256 + bytes[at + 1] as u16)
}

/// Appends a number in network order.
pub fn push_be16(buf: &mut Vec<u8>, n: u16)
    ensures
        final(buf)@ == old(buf)@ + be16_bytes(n),
{
    buf.push((n / 256) as u8);
    buf.push((n % 256) as u8);
    assert(buf@ =~= old(buf)@ + be16_bytes(n));
}

/// Appends a number in network order.
pub fn push_be32(buf: &mut Vec<u8>, n: u32)
    ensures
        final(buf)@ == old(buf)@ + be32_bytes(n),
{
    buf.push((n / 0x100_0000) as u8);
    buf.push((n / 0x1_0000 % 256) as u8);
    buf.push((n / 0x100 % 256) as u8);
    buf.push((n % 256) as u8);
    assert(buf@ =~= old(buf)@ + be32_bytes(n));
}

/// The order of the octets of a word.
#[derive(Debug, Clone, Copy, PartialEq, Eq, Structural)]
pub enum ByteOrder {
    /// Least significant first.
    Little,
    /// Most significant first.
    Big,
}

/// The unsigned number with the same 32 bits.
pub open spec fn word_bits(value: i32) -> u32 {
    if value >= 0 {
        value as u32
    } else {
        (value + 0x1_0000_0000) as u32
    }
}

/// The four octets of a word.
#[verifier::opaque]
pub open spec fn word_bytes(order: ByteOrder, value: i32) -> Seq<u8> {
    let big = be32_bytes(word_bits(value));
    match order {
        ByteOrder::Little => seq![big[3], big[2], big[1], big[0]],
        ByteOrder::Big => big,
    }
}

/// The octets of several words, one after the other.
pub open spec fn words_bytes(order: ByteOrder, words: Seq<i32>) -> Seq<u8>
    decreases words.len(),
{
    if words.len() == 0 {
        seq![]
    } else {
        words_bytes(order, words.drop_last()) + word_bytes(order, words.last())
    }
}

/// The word in the four octets at `at`.
#[verifier::opaque]
pub open spec fn word_at(order: ByteOrder, bytes: Seq<u8>, at: int) -> i32 {
    let bits = match order {
        ByteOrder::Little => bytes[at] + bytes[at + 1] * 0x100 + bytes[at + 2] * 0x1_0000 + bytes[at
            + 3] * 0x100_0000,
        ByteOrder::Big => bytes[at + 3] + bytes[at + 2] * 0x100 + bytes[at + 1] * 0x1_0000
            + bytes[at] * 0x100_0000,
    };
    if bits < 0x8000_0000 {
        bits as i32
    } else {
        (bits - 0x1_0000_0000) as i32
    }
}

/// A word takes four octets.
pub proof fn lemma_word_len(order: ByteOrder, value: i32)
    ensures
        word_bytes(order, value).len() == 4,
{
    reveal(word_bytes);
}

/// The number that four octets make up, least significant first, is the one
/// that they were taken from.
proof fn lemma_octets(n: u32)
    ensures
        n % 256 + (n / 0x100 % 256) * 0x100 + (n / 0x1_0000 % 256) * 0x1_0000 + (n / 0x100_0000)
            * 0x100_0000 == n,
        n / 0x100_0000 < 256,
{
}

/// The word in four octets that follow each other is the one that they are
/// the octets of.
proof fn lemma_word_read(order: ByteOrder, value: i32, bytes: Seq<u8>, at: int)
    requires
        bytes[at] == word_bytes(order, value)[0],
        bytes[at + 1] == word_bytes(order, value)[1],
        bytes[at + 2] == word_bytes(order, value)[2],
        bytes[at + 3] == word_bytes(order, value)[3],
    ensures
        word_at(order, bytes, at) == value,
{
    reveal(word_bytes);
    reveal(word_at);
    lemma_octets(word_bits(value));
}

/// Reading gives back the word that was written, in either order.
pub proof fn law_word_round_trip(order: ByteOrder, value: i32, before: Seq<u8>, after: Seq<u8>)
    ensures
        word_at(order, before + word_bytes(order, value) + after, before.len() as int) == value,
{
    lemma_word_len(order, value);
    lemma_word_read(order, value, before + word_bytes(order, value) + after, before.len() as int);
}

/// The word in the four octets at `at`.
pub fn read_word(order: ByteOrder, bytes: &[u8], at: usize) -> (r: i32)
    requires
        at + 4 <= bytes@.len(),
    ensures
        r == word_at(order, bytes@, at as int),
{
    reveal(word_at);
    let len: usize = bytes.len();
    assert(at + 4 <= len);
    let (b0, b1, b2, b3): (u8, u8, u8, u8) = match order {
        ByteOrder::Little => (bytes[at], bytes[at + 1], bytes[at + 2], bytes[at + 3]),
        ByteOrder::Big => (bytes[at + 3], bytes[at + 2], bytes[at + 1], bytes[at]),
    };
    let bits: i64 = b0 as i64 + b1 as i64 * 0x100 + b2 as i64 * 0x1_0000 + b3 as i64 * 0x100_0000;
    if bits < 0x8000_0000 {
        bits as i32
    } else {
        (bits - 0x1_0000_0000) as i32
    }
}

/// Appends a word.
pub fn push_word(buf: &mut Vec<u8>, order: ByteOrder, value: i32)
    ensures
        final(buf)@ == old(buf)@ + word_bytes(order, value),
{
    reveal(word_bytes);
    let bits: u32 = if value >= 0 {
        value as u32
    } else {
        (value as i64 + 0x1_0000_0000) as u32
    };
    let b3: u8 = (bits / 0x100_0000) as u8;
    let b2: u8 = (bits / 0x1_0000 % 256) as u8;
    let b1: u8 = (bits / 0x100 % 256) as u8;
    let b0: u8 = (bits % 256) as u8;
    match order {
        ByteOrder::Little => {
            buf.push(b0);
            buf.push(b1);
            buf.push(b2);
            buf.push(b3);
        },
        ByteOrder::Big => {
            buf.push(b3);
            buf.push(b2);
            buf.push(b1);
            buf.push(b0);
        },
    }
    assert(buf@ =~= old(buf)@ + word_bytes(order, value));
}

/// Each of several words can be read back, whatever follows them.
pub proof fn law_words_round_trip(order: ByteOrder, words: Seq<i32>, rest: Seq<u8>, i: int)
    requires
        0 <= i < words.len(),
    ensures
        words_bytes(order, words).len() == 4 * words.len(),
        word_at(order, words_bytes(order, words) + rest, 4 * i) == words[i],
    decreases words.len(),
{
    let before = words_bytes(order, words.drop_last());
    let last = word_bytes(order, words.last());
    lemma_words_len(order, words.drop_last());
    lemma_word_len(order, words.last());
    if i == words.len() - 1 {
        law_word_round_trip(order, words.last(), before, rest);
    } else {
        law_words_round_trip(order, words.drop_last(), last + rest, i);
        assert(before + (last + rest) =~= words_bytes(order, words) + rest);
    }
}

/// Each of several words takes four octets.
pub proof fn lemma_words_len(order: ByteOrder, words: Seq<i32>)
    ensures
        words_bytes(order, words).len() == 4 * words.len(),
    decreases words.len(),
{
    if words.len() > 0 {
        lemma_words_len(order, words.drop_last());
        lemma_word_len(order, words.last());
    }
}

/// Appends several words.
pub fn push_words(buf: &mut Vec<u8>, order: ByteOrder, words: &[i32])
    ensures
        final(buf)@ == old(buf)@ + words_bytes(order, words@),
{
    assert(words_bytes(order, words@.take(0)) =~= seq![]);
    for i in 0..words.len()
        invariant
            buf@ =~= old(buf)@ + words_bytes(order, words@.take(i as int)),
    {
        push_word(buf, order, words[i]);
        assert(words@.take(i + 1).drop_last() =~= words@.take(i as int));
        assert(words_bytes(order, words@.take(i + 1)) == words_bytes(order, words@.take(i as int))
            + word_bytes(order, words@[i as int]));
    }
    assert(words@.take(words@.len() as int) =~= words@);
}

/// `i32::to_ne_bytes`: the octets of the word in the machine's order, which
/// is one of the two.
#[verifier::external_body]
fn native_bytes(value: i32) -> (r: [u8; 4])
    ensures
        r@ == word_bytes(ByteOrder::Little, value) || r@ == word_bytes(ByteOrder::Big, value),
{
    value.to_ne_bytes()
}

/// The byte order in which the word 1 has these octets.
pub fn order_of(one: [u8; 4]) -> (r: ByteOrder)
    requires
        one@ == word_bytes(ByteOrder::Little, 1) || one@ == word_bytes(ByteOrder::Big, 1),
    ensures
        one@ == word_bytes(r, 1),
        forall|order: ByteOrder| one@ == #[trigger] word_bytes(order, 1) ==> order == r,
{
    reveal(word_bytes);
    assert(word_bytes(ByteOrder::Little, 1)[0] == 1 && word_bytes(ByteOrder::Big, 1)[0] == 0);
    if one[0] == 1 {
        ByteOrder::Little
    } else {
        ByteOrder::Big
    }
}

/// The machine's byte order: the one in which the machine has the word 1.
/// Which one that is depends on the machine alone.
pub(crate) fn native_order() -> (r: ByteOrder) {
    order_of(native_bytes(1))
}

// ---------------------------------------------------------------------------
// Laws
// ---------------------------------------------------------------------------

/// A number in network order is the weighted sum of its octets, the first of
/// which weighs most; and every two octets are some number's.
pub proof fn law_network_order(n: u16, wide: u32, bytes: Seq<u8>)
    ensures
        be16_bytes(n).len() == 2,
        n == be16_bytes(n)[0] * 256 + be16_bytes(n)[1],
        be32_bytes(wide).len() == 4,
        wide == be32_bytes(wide)[0] * 0x100_0000 + be32_bytes(wide)[1] * 0x1_0000
            + be32_bytes(wide)[2] * 256 + be32_bytes(wide)[3],
        be16_at(bytes, 0) == bytes[0] * 256 + bytes[1],
        be16_at(bytes, 2) == bytes[2] * 256 + bytes[3],
        be16_at(bytes, 4) == bytes[4] * 256 + bytes[5],
        be16_at(bytes, 6) == bytes[6] * 256 + bytes[7],
{
    lemma_octets(wide);
}

/// Where a number stands in a message does not matter to its value.
pub proof fn law_network_order_anywhere(bytes: Seq<u8>, at: int)
    ensures
        be16_at(bytes, at) == bytes[at] * 256 + bytes[at + 1],
{
}

/// A word is the weighted sum of its octets, less two to the power of 32 if it
/// is negative. The first octet weighs most in one byte order and least in the
/// other.
pub proof fn law_words_are_sums_of_octets(value: i32)
    ensures
        word_bytes(ByteOrder::Big, value).len() == 4,
        word_bytes(ByteOrder::Little, value) == word_bytes(ByteOrder::Big, value).reverse(),
        ({
            let b = word_bytes(ByteOrder::Big, value);
            b[0] * 0x100_0000 + b[1] * 0x1_0000 + b[2] * 256 + b[3] == if value < 0 {
                value + 0x1_0000_0000
            } else {
                value as int
            }
        }),
{
    reveal(word_bytes);
    lemma_octets(word_bits(value));
    let b = word_bytes(ByteOrder::Big, value);
    assert(word_bytes(ByteOrder::Little, value) =~= b.reverse());
}

/// The word at a place is the one whose octets stand there, in either order.
pub proof fn law_words_are_read_where_they_stand(
    order: ByteOrder,
    value: i32,
    bytes: Seq<u8>,
    at: int,
)
    requires
        0 <= at <= bytes.len() - 4,
    ensures
        word_at(order, bytes, at) == value <==> bytes.subrange(at, at + 4) == word_bytes(
            order,
            value,
        ),
{
    let octets = bytes.subrange(at, at + 4);
    let read = word_at(order, bytes, at);
    assert(octets[0] == bytes[at] && octets[1] == bytes[at + 1]);
    assert(octets[2] == bytes[at + 2] && octets[3] == bytes[at + 3]);
    lemma_word_len(order, value);
    if octets == word_bytes(order, value) {
        lemma_word_read(order, value, bytes, at);
    }
    lemma_octets_of_word(order, bytes, at);
    lemma_word_len(order, read);
    assert(octets =~= word_bytes(order, read));
}

/// The octets of the word that is read are those that stand there.
proof fn lemma_octets_of_word(order: ByteOrder, bytes: Seq<u8>, at: int)
    ensures
        word_bytes(order, word_at(order, bytes, at)) == seq![
            bytes[at],
            bytes[at + 1],
            bytes[at + 2],
            bytes[at + 3],
        ],
{
    reveal(word_bytes);
    reveal(word_at);
    let (b3, b2, b1, b0) = match order {
        ByteOrder::Little => (bytes[at + 3], bytes[at + 2], bytes[at + 1], bytes[at]),
        ByteOrder::Big => (bytes[at], bytes[at + 1], bytes[at + 2], bytes[at + 3]),
    };
    let n = (b3 * 0x100_0000 + b2 * 0x1_0000 + b1 * 0x100 + b0) as u32;
    lemma_number_of_octets(n, b3, b2, b1, b0);
    assert(word_bits(word_at(order, bytes, at)) == n);
}

proof fn lemma_number_of_octets(n: u32, b3: u8, b2: u8, b1: u8, b0: u8)
    requires
        n == b3 * 0x100_0000 + b2 * 0x1_0000 + b1 * 0x100 + b0,
    ensures
        n / 0x100_0000 == b3,
        n / 0x1_0000 % 256 == b2,
        n / 0x100 % 256 == b1,
        n % 256 == b0,
{
}

/// Several words stand one after the other, in order, and nothing else does.
pub proof fn law_words_stand_in_order(order: ByteOrder, words: Seq<i32>, word: i32)
    ensures
        words_bytes(order, seq![]) == Seq::<u8>::empty(),
        words_bytes(order, words.push(word)) == words_bytes(order, words) + word_bytes(
            order,
            word,
        ),
{
    assert(words.push(word).drop_last() =~= words);
}

} // verus!
