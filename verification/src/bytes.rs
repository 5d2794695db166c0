//! Little-endian bytes of integers.

use vstd::prelude::*;

verus! {

/// The `width` low bytes of `v`, least significant first.
pub open spec fn le_seq(v: nat, width: nat) -> Seq<u8>
    decreases width,
{
    if width == 0 {
        Seq::empty()
    } else {
        seq![(v % 256) as u8] + le_seq(v / 256, (width - 1) as nat)
    }
}

/// The number that bytes stand for, least significant first.
pub open spec fn le_value(s: Seq<u8>) -> nat
    decreases s.len(),
{
    if s.len() == 0 {
        0
    } else {
        s[0] as nat + 256 * le_value(s.skip(1))
    }
}

/// How many numbers `width` bytes can tell apart.
pub open spec fn byte_range(width: nat) -> nat
    decreases width,
{
    if width == 0 {
        1
    } else {
        256 * byte_range((width - 1) as nat)
    }
}

/// There are as many bytes as asked for.
pub proof fn lemma_le_len(v: nat, width: nat)
    ensures
        le_seq(v, width).len() == width,
    decreases width,
{
    if width > 0 {
        lemma_le_len(v / 256, (width - 1) as nat);
    }
}

/// What is written is read back: a number that fits its bytes is the number that
/// the bytes stand for.
pub proof fn law_written_number_is_read_back(v: nat, width: nat)
    requires
        v < byte_range(width),
    ensures
        le_value(le_seq(v, width)) == v,
        le_seq(v, width).len() == width,
    decreases width,
{
    lemma_le_len(v, width);
    if width > 0 {
        let rest = (width - 1) as nat;
        law_written_number_is_read_back(v / 256, rest);
        assert(le_seq(v, width).skip(1) =~= le_seq(v / 256, rest));
    }
}

/// What is read is written back: bytes are the bytes of the number that they
/// stand for.
pub proof fn law_read_bytes_are_written_back(s: Seq<u8>)
    ensures
        le_seq(le_value(s), s.len()) == s,
        le_value(s) < byte_range(s.len()),
    decreases s.len(),
{
    if s.len() > 0 {
        let tail = s.skip(1);
        law_read_bytes_are_written_back(tail);
        let v = le_value(s);
        assert(v % 256 == s[0] as nat && v / 256 == le_value(tail));
        assert(le_seq(v, s.len()) =~= s);
    } else {
        assert(le_seq(le_value(s), s.len()) =~= s);
    }
}

/// Appends the `width` low bytes of `v`.
pub fn put_le(out: &mut Vec<u8>, v: u64, width: usize)
    ensures
        final(out)@ == old(out)@ + le_seq(v as nat, width as nat),
{
    let mut left: u64 = v;
    let mut i: usize = 0;
    while i < width
        invariant
            i <= width,
            out@ + le_seq(left as nat, (width - i) as nat) =~= old(out)@ + le_seq(
                v as nat,
                width as nat,
            ),
        decreases width - i,
    {
        let ghost before = out@;
        let ghost whole = left;
        out.push((left % 256) as u8);
        left = left / 256;
        i = i + 1;
        proof {
            let rest = le_seq(left as nat, (width - i) as nat);
            assert(le_seq(whole as nat, (width - i + 1) as nat) =~= seq![(whole % 256) as u8]
                + rest);
            assert(out@ + rest =~= before + (seq![(whole % 256) as u8] + rest));
        }
    }
    assert(le_seq(left as nat, 0) =~= Seq::<u8>::empty());
    assert(out@ =~= out@ + le_seq(left as nat, 0));
}

/// Reads two bytes.
pub fn get_u16(src: &[u8], at: usize) -> (v: u16)
    requires
        at + 2 <= src@.len(),
    ensures
        v as nat == le_value(src@.subrange(at as int, at + 2)),
{
    let ghost s = src@.subrange(at as int, at + 2);
    proof {
        reveal_with_fuel(le_value, 3);
        assert(s.skip(1)[0] == src@[at + 1]);
    }
    src[at] as u16 + 256 * (src[at + 1] as u16)
}

/// Reads four bytes.
pub fn get_u32(src: &[u8], at: usize) -> (v: u32)
    requires
        at + 4 <= src@.len(),
    ensures
        v as nat == le_value(src@.subrange(at as int, at + 4)),
{
    let ghost s = src@.subrange(at as int, at + 4);
    proof {
        reveal_with_fuel(le_value, 5);
        assert(s.skip(1)[0] == src@[at + 1]);
        assert(s.skip(1).skip(1)[0] == src@[at + 2]);
        assert(s.skip(1).skip(1).skip(1)[0] == src@[at + 3]);
    }
    src[at] as u32 + 256 * (src[at + 1] as u32) + 65536 * (src[at + 2] as u32) + 16777216 * (src[at
        + 3] as u32)
}

/// The signed reading of sixteen bits.
pub open spec fn signed16(v: nat) -> int {
    if v >= 0x8000 {
        v - 0x1_0000
    } else {
        v as int
    }
}

/// The signed reading of thirty-two bits.
pub open spec fn signed32(v: nat) -> int {
    if v >= 0x8000_0000 {
        v - 0x1_0000_0000
    } else {
        v as int
    }
}

/// Reads a signed number out of two bytes.
pub fn get_i16(src: &[u8], at: usize) -> (v: i16)
    requires
        at + 2 <= src@.len(),
    ensures
        v as int == signed16(le_value(src@.subrange(at as int, at + 2))),
{
    let u: u16 = get_u16(src, at);
    if u >= 0x8000 {
        (u as i32 - 0x1_0000) as i16
    } else {
        u as i16
    }
}

/// Reads a signed number out of four bytes.
pub fn get_i32(src: &[u8], at: usize) -> (v: i32)
    requires
        at + 4 <= src@.len(),
    ensures
        v as int == signed32(le_value(src@.subrange(at as int, at + 4))),
{
    let u: u32 = get_u32(src, at);
    if u >= 0x8000_0000 {
        (u as i64 - 0x1_0000_0000) as i32
    } else {
        u as i32
    }
}

/// The bytes of half-precision patterns, one after the other.
pub open spec fn halves_seq(values: Seq<u16>) -> Seq<u8> {
    Seq::new(
        2 * values.len(),
        |i: int|
            if i % 2 == 0 {
                (values[i / 2] % 256) as u8
            } else {
                (values[i / 2] / 256) as u8
            },
    )
}

/// Writes half-precision patterns one after the other.
pub fn half_bytes(values: &[u16]) -> (out: Vec<u8>)
    ensures
        out@ == halves_seq(values@),
{
    let mut out: Vec<u8> = Vec::new();
    let mut i: usize = 0;
    while i < values.len()
        invariant
            i <= values@.len(),
            out@.len() == 2 * i,
            forall|j: int| 0 <= j < 2 * i ==> out@[j] == halves_seq(values@)[j],
        decreases values@.len() - i,
    {
        out.push((values[i] % 256) as u8);
        out.push((values[i] / 256) as u8);
        i = i + 1;
    }
    assert(out@ =~= halves_seq(values@));
    out
}

/// The bytes of pattern `i` read back as that pattern.
pub proof fn law_half_is_read_back(values: Seq<u16>, i: int)
    requires
        0 <= i < values.len(),
    ensures
        le_value(halves_seq(values).subrange(2 * i, 2 * i + 2)) == values[i],
{
    let s = halves_seq(values).subrange(2 * i, 2 * i + 2);
    reveal_with_fuel(le_value, 3);
    assert(s[0] == (values[i] % 256) as u8);
    assert(s.skip(1)[0] == s[1]);
    assert((2 * i + 1) / 2 == i);
    assert(s[1] == (values[i] / 256) as u8);
}

/// The bytes of words, one after the other.
pub open spec fn words_seq(words: Seq<u64>) -> Seq<u8>
    decreases words.len(),
{
    if words.len() == 0 {
        Seq::empty()
    } else {
        words_seq(words.drop_last()) + le_seq(words.last() as nat, 8)
    }
}

/// Eight bytes for each word.
pub proof fn lemma_words_len(words: Seq<u64>)
    ensures
        words_seq(words).len() == 8 * words.len(),
    decreases words.len(),
{
    if words.len() > 0 {
        lemma_words_len(words.drop_last());
        lemma_le_len(words.last() as nat, 8);
    }
}

/// Writes words one after the other.
pub fn words_bytes(words: &[u64]) -> (out: Vec<u8>)
    ensures
        out@ == words_seq(words@),
        out@.len() == 8 * words@.len(),
{
    let mut out: Vec<u8> = Vec::new();
    let mut i: usize = 0;
    while i < words.len()
        invariant
            i <= words@.len(),
            out@ == words_seq(words@.take(i as int)),
        decreases words@.len() - i,
    {
        put_le(&mut out, words[i], 8);
        assert(words@.take(i + 1).drop_last() =~= words@.take(i as int));
        i = i + 1;
    }
    assert(words@.take(i as int) =~= words@);
    proof {
        lemma_words_len(words@);
    }
    out
}

/// The bytes of word `i` read back as that word, and the words stand in order.
pub proof fn law_words_are_read_back(words: Seq<u64>, i: int)
    requires
        0 <= i < words.len(),
    ensures
        words_seq(words).len() == 8 * words.len(),
        le_value(words_seq(words).subrange(8 * i, 8 * i + 8)) == words[i],
    decreases words.len(),
{
    lemma_words_len(words);
    let before = words_seq(words.drop_last());
    lemma_words_len(words.drop_last());
    if i < words.len() - 1 {
        law_words_are_read_back(words.drop_last(), i);
        assert(words_seq(words).subrange(8 * i, 8 * i + 8) =~= before.subrange(8 * i, 8 * i + 8));
    } else {
        let v = words.last() as nat;
        reveal_with_fuel(byte_range, 9);
        law_written_number_is_read_back(v, 8);
        assert(words_seq(words).subrange(8 * i, 8 * i + 8) =~= le_seq(v, 8));
    }
}

/// The first byte of a number is its lowest: bytes stand for the sum of their
/// values, each weighing 256 times the one before.
pub proof fn law_bytes_weigh_more_one_by_one(s: Seq<u8>)
    requires
        s.len() > 0,
    ensures
        le_value(s) == s[0] as nat + 256 * le_value(s.skip(1)),
        le_value(Seq::<u8>::empty()) == 0,
{
}

/// The patterns of values stand side by side, two bytes each, the low byte first.
pub proof fn law_halves_are_low_byte_first(values: Seq<u16>, i: int)
    requires
        0 <= i < values.len(),
    ensures
        halves_seq(values).len() == 2 * values.len(),
        halves_seq(values)[2 * i] + 256 * halves_seq(values)[2 * i + 1] == values[i],
{
    assert((2 * i + 1) / 2 == i);
}

/// A signed reading is the pattern itself, up to a whole turn, and lies within the
/// signed range.
pub proof fn law_signed_readings_are_a_turn_away(v: nat)
    ensures
        v < 0x1_0000 ==> -0x8000 <= signed16(v) < 0x8000 && (signed16(v) - v) % 0x1_0000 == 0,
        v < 0x1_0000_0000 ==> -0x8000_0000 <= signed32(v) < 0x8000_0000 && (signed32(v) - v)
            % 0x1_0000_0000 == 0,
{
}

} // verus!
