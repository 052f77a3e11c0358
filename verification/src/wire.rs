//! Big-endian numbers as they lie on the wire.
use vstd::prelude::*;

verus! {

/// The 16-bit number whose big-endian encoding starts at offset `i` of `b`.
pub open spec fn u16_at(b: Seq<u8>, i: int) -> u16 {
    (b[i] * 0x100 + b[i + 1]) as u16
}

/// The 32-bit number whose big-endian encoding starts at offset `i` of `b`.
pub open spec fn u32_at(b: Seq<u8>, i: int) -> u32 {
    (b[i] * 0x100_0000 + b[i + 1] * 0x1_0000 + b[i + 2] * 0x100 + b[i + 3]) as u32
}

/// The signed 32-bit number, in two's complement, whose big-endian encoding
/// starts at offset `i` of `b`.
pub open spec fn i32_at(b: Seq<u8>, i: int) -> i32 {
    signed(u32_at(b, i))
}

/// The big-endian encoding of a 16-bit number.
pub open spec fn u16_bytes(v: u16) -> Seq<u8> {
    seq![(v / 0x100) as u8, (v % 0x100) as u8]
}

/// The big-endian encoding of a 32-bit number.
pub open spec fn u32_bytes(v: u32) -> Seq<u8> {
    seq![
        (v / 0x100_0000) as u8,
        (v / 0x1_0000 % 0x100) as u8,
        (v / 0x100 % 0x100) as u8,
        (v % 0x100) as u8,
    ]
}

/// The big-endian encoding of a signed 32-bit number, in two's complement.
pub open spec fn i32_bytes(v: i32) -> Seq<u8> {
    u32_bytes(unsigned(v))
}

/// The big-endian encodings of some 32-bit numbers, one behind the other.
pub open spec fn words_bytes(words: Seq<u32>) -> Seq<u8>
    decreases words.len(),
{
    if words.len() == 0 {
        Seq::empty()
    } else {
        words_bytes(words.drop_last()) + u32_bytes(words.last())
    }
}

/// The 32-bit numbers in `b`, as many as it holds whole.
pub open spec fn words_in(b: Seq<u8>) -> Seq<u32> {
    Seq::new(b.len() / 4, |i: int| u32_at(b, 4 * i))
}

/// The signed reading of a 32-bit pattern.
pub open spec fn signed(v: u32) -> i32 {
    if v < 0x8000_0000 {
        v as i32
    } else {
        (v - 0x1_0000_0000) as i32
    }
}

/// The unsigned reading of a 32-bit pattern.
pub open spec fn unsigned(v: i32) -> u32 {
    if v >= 0 {
        v as u32
    } else {
        (v + 0x1_0000_0000) as u32
    }
}

/// A vector of `len` bytes can take `extra` more. A vector holds at most
/// `isize::MAX` bytes, and one that grows may make room for twice as many as it
/// has.
pub open spec fn room_for(len: nat, extra: nat) -> bool {
    2 * (len + extra) <= isize::MAX
}

/// The bytes of a value that may be there.
pub open spec fn opt_bytes(v: Option<Seq<u8>>) -> Seq<u8> {
    match v {
        Some(s) => s,
        None => Seq::empty(),
    }
}

/// What a reading returned, with the value taken by its view.
pub open spec fn outcome<T: View, E>(r: Result<T, E>) -> Result<T::V, E> {
    match r {
        Ok(v) => Ok(v@),
        Err(e) => Err(e),
    }
}

/// A cast between the two readings keeps the pattern.
pub proof fn lemma_sign_casts(u: u32, i: i32)
    ensures
        u as i32 == signed(u),
        i as u32 == unsigned(i),
        signed(unsigned(i)) == i,
        unsigned(signed(u)) == u,
{
    if u >= 0x8000_0000 {
        assert(u as i32 == u - 0x1_0000_0000) by (bit_vector)
            requires
                u >= 0x8000_0000,
        ;
    }
    if i < 0 {
        assert(i as u32 == i + 0x1_0000_0000) by (bit_vector)
            requires
                i < 0,
        ;
    }
}

/// Some words take four bytes each.
pub proof fn lemma_words_len(words: Seq<u32>)
    ensures
        words_bytes(words).len() == 4 * words.len(),
    decreases words.len(),
{
    if words.len() > 0 {
        lemma_words_len(words.drop_last());
    }
}

/// Skipping twice is skipping once.
pub broadcast proof fn lemma_skip_skip(b: Seq<u8>, m: int, n: int)
    requires
        0 <= m,
        0 <= n,
        m + n <= b.len(),
    ensures
        #[trigger] b.skip(m).skip(n) == b.skip(m + n),
{
    assert(b.skip(m).skip(n) =~= b.skip(m + n));
}

/// Concatenation is associative.
pub broadcast proof fn lemma_concat(a: Seq<u8>, b: Seq<u8>, c: Seq<u8>)
    ensures
        #[trigger] ((a + b) + c) == a + (b + c),
{
    assert((a + b) + c =~= a + (b + c));
}

/// A 16-bit number reads back from its encoding, wherever that stands.
pub proof fn lemma_u16_reads_back(b: Seq<u8>, i: int, v: u16)
    requires
        0 <= i,
        i + 2 <= b.len(),
        b.subrange(i, i + 2) == u16_bytes(v),
    ensures
        u16_at(b, i) == v,
{
    let s = b.subrange(i, i + 2);
    assert(b[i] == s[0] && b[i + 1] == s[1]);
}

/// A 32-bit number reads back from its encoding, wherever that stands.
pub proof fn lemma_u32_reads_back(b: Seq<u8>, i: int, v: u32)
    requires
        0 <= i,
        i + 4 <= b.len(),
        b.subrange(i, i + 4) == u32_bytes(v),
    ensures
        u32_at(b, i) == v,
{
    let s = b.subrange(i, i + 4);
    assert(b[i] == s[0] && b[i + 1] == s[1] && b[i + 2] == s[2] && b[i + 3] == s[3]);
}

/// A signed 32-bit number reads back from its encoding, wherever that stands.
pub proof fn lemma_i32_reads_back(b: Seq<u8>, i: int, v: i32)
    requires
        0 <= i,
        i + 4 <= b.len(),
        b.subrange(i, i + 4) == i32_bytes(v),
    ensures
        i32_at(b, i) == v,
{
    lemma_u32_reads_back(b, i, unsigned(v));
    lemma_sign_casts(0, v);
}

/// The halves of a 32-bit number read back from its encoding.
pub proof fn lemma_u32_halves(b: Seq<u8>, i: int, v: u32)
    requires
        0 <= i,
        i + 4 <= b.len(),
        b.subrange(i, i + 4) == u32_bytes(v),
    ensures
        u16_at(b, i) == v / 0x1_0000,
        u16_at(b, i + 2) == v % 0x1_0000,
{
    let s = b.subrange(i, i + 4);
    assert(b[i] == s[0] && b[i + 1] == s[1] && b[i + 2] == s[2] && b[i + 3] == s[3]);
}

/// Bytes come back from the 16-bit number that they encode.
pub proof fn lemma_u16_writes_back(b: Seq<u8>, i: int)
    requires
        0 <= i,
        i + 2 <= b.len(),
    ensures
        u16_bytes(u16_at(b, i)) == b.subrange(i, i + 2),
{
    assert(u16_bytes(u16_at(b, i)) =~= b.subrange(i, i + 2));
}

/// Bytes come back from the 32-bit number that they encode.
pub proof fn lemma_u32_writes_back(b: Seq<u8>, i: int)
    requires
        0 <= i,
        i + 4 <= b.len(),
    ensures
        u32_bytes(u32_at(b, i)) == b.subrange(i, i + 4),
        i32_bytes(i32_at(b, i)) == b.subrange(i, i + 4),
{
    lemma_sign_casts(u32_at(b, i), 0);
    assert(u32_bytes(u32_at(b, i)) =~= b.subrange(i, i + 4));
}

/// Bytes come back from the words that they encode, where there are no others.
pub proof fn lemma_words_write_back(b: Seq<u8>)
    requires
        b.len() % 4 == 0,
    ensures
        words_bytes(words_in(b)) == b,
    decreases b.len(),
{
    let words = words_in(b);
    if b.len() > 0 {
        let front = b.take(b.len() - 4);
        lemma_words_write_back(front);
        assert(words.drop_last() =~= words_in(front));
        lemma_u32_writes_back(b, b.len() - 4);
        assert(words.last() == u32_at(b, b.len() - 4));
        assert(words_bytes(words) =~= b);
    } else {
        assert(words_bytes(words) =~= b);
    }
}

/// Some words read back from their encodings, whatever follows them short of
/// another word.
pub proof fn lemma_words_read_back(words: Seq<u32>, t: Seq<u8>)
    requires
        t.len() < 4,
    ensures
        words_in(words_bytes(words) + t) == words,
{
    let b = words_bytes(words) + t;
    lemma_words_len(words);
    assert forall|i: int| 0 <= i < words.len() implies u32_at(b, 4 * i) == words[i] by {
        lemma_word_at(words, i);
        assert(b.subrange(4 * i, 4 * i + 4) =~= words_bytes(words).subrange(4 * i, 4 * i + 4));
        lemma_u32_reads_back(b, 4 * i, words[i]);
    }
    assert(words_in(b) =~= words);
}

/// The encoding of the word at `i` stands at four times `i`.
proof fn lemma_word_at(words: Seq<u32>, i: int)
    requires
        0 <= i < words.len(),
    ensures
        words_bytes(words).len() == 4 * words.len(),
        words_bytes(words).subrange(4 * i, 4 * i + 4) == u32_bytes(words[i]),
    decreases words.len(),
{
    lemma_words_len(words);
    lemma_words_len(words.drop_last());
    let b = words_bytes(words);
    if i == words.len() - 1 {
        assert(b.subrange(4 * i, 4 * i + 4) =~= u32_bytes(words[i]));
    } else {
        lemma_word_at(words.drop_last(), i);
        assert(b.subrange(4 * i, 4 * i + 4) =~= words_bytes(words.drop_last()).subrange(
            4 * i,
            4 * i + 4,
        ));
    }
}

} // verus!
