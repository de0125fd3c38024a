//! The 7-bit-safe SysEx codec.
//!
//! MIDI system-exclusive payloads may only carry bytes with the top bit
//! clear.  This module provides the two reversible encodings the device
//! protocol uses: a fixed-width one for 32-bit integers (five 7-bit words
//! per value) and a grouped one for arbitrary byte buffers (one mask word
//! per up to seven payload words).

use vstd::prelude::*;

verus! {

/// Errors of the codec: too little input, a destination of the wrong
/// size, or a destination too small to hold the decoded bytes.
#[derive(Clone, Copy, Debug, PartialEq, Eq, Structural)]
pub enum SysexError {
    InsufficientData,
    InvalidBufferSize,
    BufferTooSmall,
}

/// How many bytes a codec call consumed and produced.
#[derive(Clone, Copy, Debug, PartialEq, Eq, Structural)]
pub struct CodingResult {
    pub bytes_read: usize,
    pub bytes_written: usize,
}

impl CodingResult {
    pub fn new(bytes_read: usize, bytes_written: usize) -> (r: Self)
        ensures
            r == (CodingResult { bytes_read, bytes_written }),
    {
        CodingResult { bytes_read, bytes_written }
    }
}

/// Every byte of `s` is 7-bit safe, i.e. legal inside a SysEx payload.
pub open spec fn all_seven_bit(s: Seq<u8>) -> bool {
    forall|i: int| 0 <= i < s.len() ==> s[i] < 128
}

/// The mask word of the 32-bit encoding: bits 0..=3 hold the top bits of
/// the four payload bytes, most significant byte first.
pub open spec fn encode32_mask(value: u32) -> u8 {
    (if value & 0x8000_0000u32 != 0 { 1u8 } else { 0u8 })
        | (if value & 0x0080_0000u32 != 0 { 2u8 } else { 0u8 })
        | (if value & 0x0000_8000u32 != 0 { 4u8 } else { 0u8 })
        | (if value & 0x0000_0080u32 != 0 { 8u8 } else { 0u8 })
}

/// The five 7-bit words that encode `value`: the mask word, then the four
/// value bytes big-endian with their top bits cleared.
pub open spec fn encode32_spec(value: u32) -> Seq<u8> {
    seq![
        encode32_mask(value),
        ((value >> 24u32) & 0x7fu32) as u8,
        ((value >> 16u32) & 0x7fu32) as u8,
        ((value >> 8u32) & 0x7fu32) as u8,
        (value & 0x7fu32) as u8,
    ]
}

/// The value read back from a mask word and four payload words.
pub open spec fn decode32_of(m: u8, b1: u8, b2: u8, b3: u8, b4: u8) -> u32 {
    (((b1 & 0x7fu8) as u32) << 24u32)
        | (((b2 & 0x7fu8) as u32) << 16u32)
        | (((b3 & 0x7fu8) as u32) << 8u32)
        | ((b4 & 0x7fu8) as u32)
        | (if m & 1u8 != 0 { 0x8000_0000u32 } else { 0u32 })
        | (if m & 2u8 != 0 { 0x0080_0000u32 } else { 0u32 })
        | (if m & 4u8 != 0 { 0x0000_8000u32 } else { 0u32 })
        | (if m & 8u8 != 0 { 0x0000_0080u32 } else { 0u32 })
}

/// The value encoded by the first five words of `s`.
pub open spec fn decode32_spec(s: Seq<u8>) -> u32 {
    decode32_of(s[0], s[1], s[2], s[3], s[4])
}

/// Decoding inverts encoding for every 32-bit value.
pub proof fn lemma_decode32_encode32(value: u32)
    ensures
        decode32_spec(encode32_spec(value)) == value,
{
    let m = encode32_mask(value);
    let b1 = ((value >> 24u32) & 0x7fu32) as u8;
    let b2 = ((value >> 16u32) & 0x7fu32) as u8;
    let b3 = ((value >> 8u32) & 0x7fu32) as u8;
    let b4 = (value & 0x7fu32) as u8;
    assert(decode32_spec(encode32_spec(value)) == decode32_of(m, b1, b2, b3, b4));
    assert(decode32_of(
        ((if value & 0x8000_0000u32 != 0 { 1u8 } else { 0u8 })
            | (if value & 0x0080_0000u32 != 0 { 2u8 } else { 0u8 })
            | (if value & 0x0000_8000u32 != 0 { 4u8 } else { 0u8 })
            | (if value & 0x0000_0080u32 != 0 { 8u8 } else { 0u8 })),
        ((value >> 24u32) & 0x7fu32) as u8,
        ((value >> 16u32) & 0x7fu32) as u8,
        ((value >> 8u32) & 0x7fu32) as u8,
        (value & 0x7fu32) as u8,
    ) == value) by (bit_vector);
}

/// Every word the 32-bit encoding produces is 7-bit safe.
pub proof fn lemma_encode32_seven_bit(value: u32)
    ensures
        all_seven_bit(encode32_spec(value)),
{
    let m = encode32_mask(value);
    assert(((if value & 0x8000_0000u32 != 0 { 1u8 } else { 0u8 })
        | (if value & 0x0080_0000u32 != 0 { 2u8 } else { 0u8 })
        | (if value & 0x0000_8000u32 != 0 { 4u8 } else { 0u8 })
        | (if value & 0x0000_0080u32 != 0 { 8u8 } else { 0u8 })) < 16u8) by (bit_vector);
    assert(((value >> 24u32) & 0x7fu32) < 128) by (bit_vector);
    assert(((value >> 16u32) & 0x7fu32) < 128) by (bit_vector);
    assert(((value >> 8u32) & 0x7fu32) < 128) by (bit_vector);
    assert((value & 0x7fu32) < 128) by (bit_vector);
}

/// The mask word of one encoded group: bit `i` holds the top bit of the
/// `i`-th byte of the group (meaningful for groups of up to seven bytes).
pub open spec fn group_mask_spec(g: Seq<u8>) -> u8
    decreases g.len(),
{
    if g.len() == 0 {
        0u8
    } else {
        group_mask_spec(g.drop_last()) | ((g.last() >> 7u8) << ((g.len() - 1) as u8))
    }
}

/// One encoded group: the mask word, then the bytes with top bits cleared.
pub open spec fn encode_group_spec(g: Seq<u8>) -> Seq<u8> {
    seq![group_mask_spec(g)] + g.map_values(|b: u8| b & 0x7fu8)
}

/// The grouped encoding of a whole buffer: groups of up to seven bytes,
/// each preceded by its mask word.  An empty buffer encodes to nothing.
pub open spec fn encode_bytes_spec(s: Seq<u8>) -> Seq<u8>
    decreases s.len(),
{
    if s.len() == 0 {
        Seq::empty()
    } else if s.len() <= 7 {
        encode_group_spec(s)
    } else {
        encode_group_spec(s.take(7)) + encode_bytes_spec(s.skip(7))
    }
}

/// The bytes read back from one group of words, `w[0]` being the mask.
pub open spec fn decode_group_spec(w: Seq<u8>) -> Seq<u8> {
    Seq::new((w.len() - 1) as nat, |i: int| (((w[0] >> (i as u8)) & 1u8) << 7u8) | (w[i + 1] & 0x7fu8))
}

/// The grouped decoding of a word stream: groups of up to eight words.
pub open spec fn decode_bytes_spec(w: Seq<u8>) -> Seq<u8>
    decreases w.len(),
{
    if w.len() == 0 {
        Seq::empty()
    } else if w.len() <= 8 {
        decode_group_spec(w)
    } else {
        decode_group_spec(w.take(8)) + decode_bytes_spec(w.skip(8))
    }
}

/// How many words the grouped encoding of `n` bytes takes: one mask word
/// for every started group of seven.
pub open spec fn encoded_len_spec(n: int) -> int {
    if n <= 0 {
        0
    } else {
        n + (n + 6) / 7
    }
}

/// How many bytes decoding `m` words produces.
pub open spec fn decoded_len_spec(m: int) -> int {
    if m <= 0 {
        0
    } else {
        7 * (m / 8) + (if m % 8 == 0 { 0 } else { m % 8 - 1 })
    }
}

/// The capacity the decoder demands of its destination, an overestimate
/// of the decoded length.
pub open spec fn decode_capacity_spec(m: int) -> int {
    if m <= 0 {
        0
    } else {
        7 * (m / 8) + (if m % 8 == 0 { 0 } else { 2 * (m % 8) - 1 })
    }
}

proof fn lemma_group_mask_bound(g: Seq<u8>)
    requires
        g.len() <= 7,
    ensures
        group_mask_spec(g) < (1u8 << (g.len() as u8)),
    decreases g.len(),
{
    if g.len() == 0 {
        assert(0u8 < (1u8 << 0u8)) by (bit_vector);
    } else {
        lemma_group_mask_bound(g.drop_last());
        let p = group_mask_spec(g.drop_last());
        let b = g.last();
        let k = g.len() as u8;
        assert(1 <= k && k <= 7 && p < (1u8 << ((k - 1) as u8))
            ==> (p | ((b >> 7u8) << ((k - 1) as u8))) < (1u8 << k)) by (bit_vector);
    }
}

proof fn lemma_group_mask_bit(g: Seq<u8>, i: int)
    requires
        g.len() <= 7,
        0 <= i < g.len(),
    ensures
        ((group_mask_spec(g) >> (i as u8)) & 1u8) == (g[i] >> 7u8),
    decreases g.len(),
{
    let p = group_mask_spec(g.drop_last());
    let b = g.last();
    let k = g.len() as u8;
    let ii = i as u8;
    if i == g.len() - 1 {
        lemma_group_mask_bound(g.drop_last());
        assert(1 <= k && k <= 7 && p < (1u8 << ((k - 1) as u8))
            ==> (((p | ((b >> 7u8) << ((k - 1) as u8))) >> ((k - 1) as u8)) & 1u8)
                == (b >> 7u8)) by (bit_vector);
    } else {
        lemma_group_mask_bit(g.drop_last(), i);
        assert(g.drop_last()[i] == g[i]);
        assert(1 <= k && k <= 7 && ii < (k - 1) as u8
            ==> (((p | ((b >> 7u8) << ((k - 1) as u8))) >> ii) & 1u8)
                == ((p >> ii) & 1u8)) by (bit_vector);
    }
}

proof fn lemma_group_roundtrip(g: Seq<u8>)
    requires
        1 <= g.len() <= 7,
    ensures
        decode_group_spec(encode_group_spec(g)) == g,
{
    let w = encode_group_spec(g);
    assert(w.len() == g.len() + 1);
    assert forall|i: int| 0 <= i < g.len() implies decode_group_spec(w)[i] == g[i] by {
        assert(w[0] == group_mask_spec(g));
        assert(w[i + 1] == g[i] & 0x7fu8);
        lemma_group_mask_bit(g, i);
        let b = g[i];
        assert((((b >> 7u8)) << 7u8) | ((b & 0x7fu8) & 0x7fu8) == b) by (bit_vector);
    };
    assert(decode_group_spec(w) =~= g);
}

/// The encoding of a buffer splits at any group boundary of the input.
proof fn lemma_encode_bytes_split(s: Seq<u8>, i: int)
    requires
        0 <= i <= s.len(),
        i % 7 == 0,
    ensures
        encode_bytes_spec(s) == encode_bytes_spec(s.take(i)) + encode_bytes_spec(s.skip(i)),
    decreases i,
{
    if i == 0 {
        assert(s.skip(0) =~= s);
        assert(encode_bytes_spec(s) =~= encode_bytes_spec(s.take(0)) + encode_bytes_spec(s));
    } else if s.len() <= 7 {
        // i is a positive multiple of 7 and at most s.len(), so i == 7 == s.len()
        assert(i == 7);
        assert(s.take(i) =~= s);
        assert(encode_bytes_spec(s.skip(i)) =~= Seq::<u8>::empty());
        assert(encode_bytes_spec(s) =~= encode_bytes_spec(s.take(i)) + encode_bytes_spec(s.skip(i)));
    } else {
        lemma_encode_bytes_split(s.skip(7), i - 7);
        assert(s.skip(7).take(i - 7) =~= s.take(i).skip(7));
        assert(s.skip(7).skip(i - 7) =~= s.skip(i));
        if i == 7 {
            assert(s.take(7) =~= s.take(i));
            assert(encode_bytes_spec(s.take(i)) == encode_group_spec(s.take(7)));
        } else {
            // s.take(i) is longer than one group, so it unfolds at 7 as well
            assert(s.take(i).take(7) =~= s.take(7));
            assert(encode_bytes_spec(s.take(i))
                == encode_group_spec(s.take(7)) + encode_bytes_spec(s.take(i).skip(7)));
        }
        assert(encode_bytes_spec(s)
            =~= encode_bytes_spec(s.take(i)) + encode_bytes_spec(s.skip(i)));
    }
}

/// The decoding of a word stream splits at any group boundary.
proof fn lemma_decode_bytes_split(w: Seq<u8>, i: int)
    requires
        0 <= i <= w.len(),
        i % 8 == 0,
    ensures
        decode_bytes_spec(w) == decode_bytes_spec(w.take(i)) + decode_bytes_spec(w.skip(i)),
    decreases i,
{
    if i == 0 {
        assert(w.skip(0) =~= w);
        assert(decode_bytes_spec(w) =~= decode_bytes_spec(w.take(0)) + decode_bytes_spec(w));
    } else if w.len() <= 8 {
        assert(i == 8);
        assert(w.take(i) =~= w);
        assert(decode_bytes_spec(w.skip(i)) =~= Seq::<u8>::empty());
        assert(decode_bytes_spec(w) =~= decode_bytes_spec(w.take(i)) + decode_bytes_spec(w.skip(i)));
    } else {
        lemma_decode_bytes_split(w.skip(8), i - 8);
        assert(w.skip(8).take(i - 8) =~= w.take(i).skip(8));
        assert(w.skip(8).skip(i - 8) =~= w.skip(i));
        if i == 8 {
            assert(w.take(8) =~= w.take(i));
            assert(decode_bytes_spec(w.take(i)) == decode_group_spec(w.take(8)));
        } else {
            assert(w.take(i).take(8) =~= w.take(8));
            assert(decode_bytes_spec(w.take(i))
                == decode_group_spec(w.take(8)) + decode_bytes_spec(w.take(i).skip(8)));
        }
        assert(decode_bytes_spec(w)
            =~= decode_bytes_spec(w.take(i)) + decode_bytes_spec(w.skip(i)));
    }
}

/// The encoding of `s` is exactly `encoded_len_spec(s.len())` words long.
pub proof fn lemma_encode_bytes_len(s: Seq<u8>)
    ensures
        encode_bytes_spec(s).len() == encoded_len_spec(s.len() as int),
    decreases s.len(),
{
    if s.len() == 0 {
    } else if s.len() <= 7 {
        assert(encode_bytes_spec(s).len() == s.len() + 1);
    } else {
        lemma_encode_bytes_len(s.skip(7));
        let n = s.len() as int;
        assert((n + 6) / 7 == (n - 1) / 7 + 1) by (nonlinear_arith)
            requires n > 7;
    }
}

/// The decoding of `w` is exactly `decoded_len_spec(w.len())` bytes long.
pub proof fn lemma_decode_bytes_len(w: Seq<u8>)
    ensures
        decode_bytes_spec(w).len() == decoded_len_spec(w.len() as int),
    decreases w.len(),
{
    if w.len() == 0 {
    } else if w.len() <= 8 {
        assert(decode_bytes_spec(w).len() == w.len() - 1);
    } else {
        lemma_decode_bytes_len(w.skip(8));
        let m = w.len() as int;
        assert((m - 8) / 8 == m / 8 - 1 && (m - 8) % 8 == m % 8) by (nonlinear_arith)
            requires m > 8;
    }
}

/// Decoding inverts encoding for every byte buffer.
pub proof fn lemma_decode_encode_bytes(s: Seq<u8>)
    ensures
        decode_bytes_spec(encode_bytes_spec(s)) == s,
    decreases s.len(),
{
    if s.len() == 0 {
    } else if s.len() <= 7 {
        lemma_group_roundtrip(s);
    } else {
        let t = s.take(7);
        let r = s.skip(7);
        let w = encode_bytes_spec(s);
        lemma_decode_encode_bytes(r);
        lemma_encode_bytes_len(r);
        assert(encode_group_spec(t).len() == 8);
        assert(encode_bytes_spec(r).len() >= 2);
        assert(w.take(8) =~= encode_group_spec(t));
        assert(w.skip(8) =~= encode_bytes_spec(r));
        lemma_group_roundtrip(t);
        assert(decode_bytes_spec(w)
            == decode_group_spec(w.take(8)) + decode_bytes_spec(w.skip(8)));
        assert(decode_bytes_spec(w) =~= s);
    }
}

/// Every word the grouped encoding produces is 7-bit safe.
pub proof fn lemma_encode_bytes_seven_bit(s: Seq<u8>)
    ensures
        all_seven_bit(encode_bytes_spec(s)),
    decreases s.len(),
{
    if s.len() == 0 {
    } else {
        let g = if s.len() <= 7 { s } else { s.take(7) };
        lemma_group_mask_bound(g);
        assert((1u8 << (g.len() as u8)) <= 128 && group_mask_spec(g) < (1u8 << (g.len() as u8))
            ==> group_mask_spec(g) < 128);
        let k = g.len() as u8;
        assert(k <= 7 ==> (1u8 << k) <= 128u8) by (bit_vector);
        assert forall|i: int| 0 <= i < g.len() implies #[trigger] encode_group_spec(g)[i + 1] < 128 by {
            let b = g[i];
            assert((b & 0x7fu8) < 128) by (bit_vector);
        };
        if s.len() > 7 {
            lemma_encode_bytes_seven_bit(s.skip(7));
            assert forall|i: int| 0 <= i < encode_bytes_spec(s).len()
                implies encode_bytes_spec(s)[i] < 128 by {
                if i >= 8 {
                    assert(encode_bytes_spec(s)[i] == encode_bytes_spec(s.skip(7))[i - 8]);
                } else if i >= 1 {
                    assert(encode_bytes_spec(s)[i] == encode_group_spec(g)[i]);
                    assert(encode_group_spec(g)[i] == encode_group_spec(g)[(i - 1) + 1]);
                }
            };
        } else {
            assert forall|i: int| 0 <= i < encode_bytes_spec(s).len()
                implies encode_bytes_spec(s)[i] < 128 by {
                if i >= 1 {
                    assert(encode_group_spec(g)[i] == encode_group_spec(g)[(i - 1) + 1]);
                }
            };
        }
    }
}

proof fn lemma_encoded_len_step(i: int, k: int)
    requires
        i >= 0,
        i % 7 == 0,
        1 <= k <= 7,
    ensures
        encoded_len_spec(i + k) == encoded_len_spec(i) + k + 1,
{
    if i == 0 {
    } else {
        assert((i + k + 6) / 7 == (i + 6) / 7 + 1) by (nonlinear_arith)
            requires i > 0 && i % 7 == 0 && 1 <= k <= 7;
    }
}

proof fn lemma_encoded_len_mono(a: int, b: int)
    requires
        0 <= a <= b,
    ensures
        encoded_len_spec(a) <= encoded_len_spec(b),
{
    if a > 0 {
        assert((a + 6) / 7 <= (b + 6) / 7) by (nonlinear_arith)
            requires 0 < a <= b;
    }
}

proof fn lemma_decoded_len_step(i: int, k: int)
    requires
        i >= 0,
        i % 8 == 0,
        1 <= k <= 8,
    ensures
        decoded_len_spec(i + k) == decoded_len_spec(i) + k - 1,
{
    assert((i + k) / 8 == i / 8 + (if k == 8 { 1int } else { 0int })
        && (i + k) % 8 == (if k == 8 { 0int } else { k })) by (nonlinear_arith)
        requires i >= 0 && i % 8 == 0 && 1 <= k <= 8;
}

pub proof fn lemma_decoded_len_mono_capacity(a: int, b: int)
    requires
        0 <= a <= b,
    ensures
        decoded_len_spec(a) <= decoded_len_spec(b),
        decoded_len_spec(b) <= decode_capacity_spec(b),
{
    if a > 0 {
        assert(7 * (a / 8) + (if a % 8 == 0 { 0int } else { a % 8 - 1 })
            <= 7 * (b / 8) + (if b % 8 == 0 { 0int } else { b % 8 - 1 })) by (nonlinear_arith)
            requires 0 < a <= b;
    }
}

/// Reads a 32-bit value from the first five 7-bit words of `data`.
///
/// Exactly five words are consumed and four logical bytes produced;
/// fewer than five words is `InsufficientData`.
pub fn decode32(data: &[u8]) -> (r: Result<(u32, CodingResult), SysexError>)
    ensures
        data@.len() >= 5 ==> r == Ok::<_, SysexError>(
            (decode32_spec(data@), CodingResult { bytes_read: 5, bytes_written: 4 }),
        ),
        data@.len() < 5 ==> r == Err::<(u32, CodingResult), _>(SysexError::InsufficientData),
{
    if data.len() >= 5 {
        let m = data[0];
        let mut y: u32 = ((data[1] & 0x7f) as u32) << 24u32;
        y = y | (((data[2] & 0x7f) as u32) << 16u32);
        y = y | (((data[3] & 0x7f) as u32) << 8u32);
        y = y | ((data[4] & 0x7f) as u32);
        y = y | (if m & 1 != 0 { 0x8000_0000u32 } else { 0u32 });
        y = y | (if m & 2 != 0 { 0x0080_0000u32 } else { 0u32 });
        y = y | (if m & 4 != 0 { 0x0000_8000u32 } else { 0u32 });
        y = y | (if m & 8 != 0 { 0x0000_0080u32 } else { 0u32 });
        Ok((y, CodingResult::new(5, 4)))
    } else {
        Err(SysexError::InsufficientData)
    }
}

/// Writes the five-word encoding of `value` into `buf`, which must be
/// exactly five words long; any other size is `InvalidBufferSize` and
/// leaves `buf` unchanged.
pub fn encode32(value: u32, buf: &mut Vec<u8>) -> (r: Result<CodingResult, SysexError>)
    ensures
        old(buf)@.len() == 5 ==> {
            &&& r == Ok::<_, SysexError>(CodingResult { bytes_read: 4, bytes_written: 5 })
            &&& final(buf)@ == encode32_spec(value)
        },
        old(buf)@.len() != 5 ==> r == Err::<CodingResult, _>(SysexError::InvalidBufferSize)
            && final(buf)@ == old(buf)@,
{
    if buf.len() != 5 {
        Err(SysexError::InvalidBufferSize)
    } else {
        let mut m: u8 = if value & 0x8000_0000u32 != 0 { 1u8 } else { 0u8 };
        m = m | (if value & 0x0080_0000u32 != 0 { 2u8 } else { 0u8 });
        m = m | (if value & 0x0000_8000u32 != 0 { 4u8 } else { 0u8 });
        m = m | (if value & 0x0000_0080u32 != 0 { 8u8 } else { 0u8 });
        buf[0] = m;
        buf[1] = ((value >> 24u32) & 0x7fu32) as u8;
        buf[2] = ((value >> 16u32) & 0x7fu32) as u8;
        buf[3] = ((value >> 8u32) & 0x7fu32) as u8;
        buf[4] = (value & 0x7fu32) as u8;
        proof {
            assert(buf@ =~= encode32_spec(value));
        }
        Ok(CodingResult::new(4, 5))
    }
}


proof fn lemma_encode_group_assemble(
    data: Seq<u8>,
    i: int,
    k: int,
    bufseq: Seq<u8>,
    pos: int,
)
    requires
        0 <= i,
        1 <= k <= 7,
        i + k <= data.len(),
        i % 7 == 0,
        pos == encoded_len_spec(i),
        pos + k + 1 <= bufseq.len(),
        bufseq[pos] == group_mask_spec(data.subrange(i, i + k)),
        forall|p: int| 0 <= p < pos ==> bufseq[p] == encode_bytes_spec(data.take(i))[p],
        forall|jj: int| 0 <= jj < k ==> #[trigger] bufseq[pos + 1 + jj] == (data.subrange(
            i,
            i + k,
        )[jj] & 0x7fu8),
    ensures
        encoded_len_spec(i + k) == pos + k + 1,
        forall|p: int| 0 <= p < pos + k + 1 ==> bufseq[p] == encode_bytes_spec(
            data.take(i + k),
        )[p],
{
    lemma_encoded_len_step(i, k);
    let g = data.subrange(i, i + k);
    let pre = encode_bytes_spec(data.take(i));
    let gnew = data.take(i + k);
    lemma_encode_bytes_split(gnew, i);
    assert(gnew.take(i) =~= data.take(i));
    assert(gnew.skip(i) =~= g);
    assert(encode_bytes_spec(gnew) == pre + encode_group_spec(g));
    lemma_encode_bytes_len(data.take(i));
    assert(pre.len() == pos);
    assert forall|p: int| 0 <= p < pos + k + 1 implies bufseq[p] == encode_bytes_spec(
        gnew,
    )[p] by {
        if p < pos {
            assert(bufseq[p] == pre[p]);
        } else if p == pos {
            assert(encode_bytes_spec(gnew)[p] == encode_group_spec(g)[0]);
        } else {
            let jj = p - pos - 1;
            assert(bufseq[pos + 1 + jj] == (g[jj] & 0x7fu8));
            assert(encode_bytes_spec(gnew)[p] == encode_group_spec(g)[jj + 1]);
            assert(encode_group_spec(g)[jj + 1] == (g[jj] & 0x7fu8));
        }
    };
}

proof fn lemma_decode_group_assemble(
    data: Seq<u8>,
    i: int,
    k: int,
    bufseq: Seq<u8>,
    pos: int,
)
    requires
        0 <= i,
        1 <= k <= 8,
        i + k <= data.len(),
        i % 8 == 0,
        pos == decoded_len_spec(i),
        pos + k - 1 <= bufseq.len(),
        forall|p: int| 0 <= p < pos ==> bufseq[p] == decode_bytes_spec(data.take(i))[p],
        forall|jj: int| 0 <= jj < k - 1 ==> #[trigger] bufseq[pos + jj] == decode_group_spec(
            data.subrange(i, i + k),
        )[jj],
    ensures
        decoded_len_spec(i + k) == pos + k - 1,
        forall|p: int| 0 <= p < pos + k - 1 ==> bufseq[p] == decode_bytes_spec(
            data.take(i + k),
        )[p],
{
    lemma_decoded_len_step(i, k);
    let g = data.subrange(i, i + k);
    let pre = decode_bytes_spec(data.take(i));
    let gnew = data.take(i + k);
    lemma_decode_bytes_split(gnew, i);
    assert(gnew.take(i) =~= data.take(i));
    assert(gnew.skip(i) =~= g);
    assert(decode_bytes_spec(gnew) == pre + decode_group_spec(g));
    lemma_decode_bytes_len(data.take(i));
    assert(pre.len() == pos);
    assert forall|p: int| 0 <= p < pos + k - 1 implies bufseq[p] == decode_bytes_spec(
        gnew,
    )[p] by {
        if p < pos {
            assert(bufseq[p] == pre[p]);
        } else {
            let jj = p - pos;
            assert(bufseq[pos + jj] == decode_group_spec(g)[jj]);
            assert(decode_bytes_spec(gnew)[p] == decode_group_spec(g)[jj]);
        }
    };
}

/// Packs `data` into 7-bit words, writing groups of up to seven low-bit
/// bytes behind their mask word at the front of `buf`.  The destination
/// must already be large enough; the tail beyond the encoding is left
/// untouched.
#[verifier::rlimit(80)]
pub fn encode_bytes(data: &[u8], buf: &mut Vec<u8>) -> (r: Result<CodingResult, SysexError>)
    requires
        old(buf)@.len() >= encoded_len_spec(data@.len() as int),
    ensures
        final(buf)@.len() == old(buf)@.len(),
        r == Ok::<_, SysexError>(CodingResult {
            bytes_read: data@.len() as usize,
            bytes_written: encoded_len_spec(data@.len() as int) as usize,
        }),
        final(buf)@ == encode_bytes_spec(data@)
            + old(buf)@.skip(encoded_len_spec(data@.len() as int)),
{
    let n = data.len();
    let buf_len = buf.len();
    let mut i: usize = 0;
    let mut pos: usize = 0;
    proof {
        assert(data@.take(0) =~= Seq::<u8>::empty());
    }
    while i < n
        invariant
            n == data@.len(),
            i <= n,
            i % 7 == 0 || i == n,
            pos == encoded_len_spec(i as int),
            pos <= buf@.len(),
            buf@.len() == buf_len,
            buf@.len() == old(buf)@.len(),
            old(buf)@.len() >= encoded_len_spec(n as int),
            forall|p: int| 0 <= p < pos ==> buf@[p] == encode_bytes_spec(data@.take(i as int))[p],
            forall|p: int| pos <= p < buf@.len() ==> buf@[p] == old(buf)@[p],
        decreases n - i,
    {
        let k = if n - i < 7 { n - i } else { 7 };
        let ghost gseq = data@.subrange(i as int, (i + k) as int);
        proof {
            lemma_encoded_len_step(i as int, k as int);
            lemma_encoded_len_mono((i + k) as int, n as int);
            assert(pos + k + 1 <= buf@.len());
            assert(gseq.take(0) =~= Seq::<u8>::empty());
        }
        let ghost enc_pre = encode_bytes_spec(data@.take(i as int));
        let mut mask: u8 = 0;
        let mut j: usize = 0;
        while j < k
            invariant
                n == data@.len(),
                i + k <= n,
                1 <= k <= 7,
                i % 7 == 0,
                j <= k,
                gseq == data@.subrange(i as int, (i + k) as int),
                enc_pre == encode_bytes_spec(data@.take(i as int)),
                pos == encoded_len_spec(i as int),
                pos + k + 1 <= buf@.len(),
                buf@.len() == buf_len,
                buf@.len() == old(buf)@.len(),
                mask == group_mask_spec(gseq.take(j as int)),
                forall|p: int| 0 <= p < pos ==> buf@[p] == enc_pre[p],
                buf@[pos as int] == old(buf)@[pos as int],
                forall|jj: int| 0 <= jj < j ==> buf@[pos + 1 + jj] == (gseq[jj] & 0x7fu8),
                forall|p: int| pos + 1 + j <= p < buf@.len() ==> buf@[p] == old(buf)@[p],
            decreases k - j,
        {
            let b = data[i + j];
            buf[pos + 1 + j] = b & 0x7f;
            proof {
                let t = gseq.take((j + 1) as int);
                assert(t.drop_last() =~= gseq.take(j as int));
                assert(t.last() == b);
            }
            mask = mask | ((b >> 7u8) << (j as u8));
            j += 1;
        }
        buf[pos] = mask;
        proof {
            assert(gseq.take(k as int) =~= gseq);
            lemma_encode_group_assemble(data@, i as int, k as int, buf@, pos as int);
            assert(pos + k + 1 <= buf@.len());
        }
        i += k;
        pos += k + 1;
    }
    proof {
        assert(data@.take(n as int) =~= data@);
        lemma_encode_bytes_len(data@);
        assert(buf@ =~= encode_bytes_spec(data@)
            + old(buf)@.skip(encoded_len_spec(data@.len() as int)));
    }
    Ok(CodingResult::new(n, pos))
}

/// Unpacks 7-bit words into `buf`, reading groups of up to eight words
/// and restoring each byte's top bit from the group's mask word.  A
/// destination smaller than the decoder's capacity demand is
/// `BufferTooSmall` and leaves `buf` unchanged; otherwise the decoded
/// bytes fill the front of `buf` and the tail is left untouched.
#[verifier::rlimit(80)]
pub fn decode_bytes(data: &[u8], buf: &mut Vec<u8>) -> (r: Result<CodingResult, SysexError>)
    ensures
        final(buf)@.len() == old(buf)@.len(),
        old(buf)@.len() < decode_capacity_spec(data@.len() as int) ==> {
            &&& r == Err::<CodingResult, _>(SysexError::BufferTooSmall)
            &&& final(buf)@ == old(buf)@
        },
        old(buf)@.len() >= decode_capacity_spec(data@.len() as int) ==> {
            &&& r == Ok::<_, SysexError>(CodingResult {
                bytes_read: data@.len() as usize,
                bytes_written: decoded_len_spec(data@.len() as int) as usize,
            })
            &&& final(buf)@ == decode_bytes_spec(data@)
                + old(buf)@.skip(decoded_len_spec(data@.len() as int))
        },
{
    let n = data.len();
    let q = n / 8;
    let rem = n % 8;
    proof {
        assert((n as int / 8) * 7 + 13 <= usize::MAX as int) by (nonlinear_arith)
            requires n as int <= usize::MAX as int;
    }
    let cap = q * 7 + (if rem > 0 { 2 * rem - 1 } else { 0 });
    if buf.len() < cap {
        return Err(SysexError::BufferTooSmall);
    }
    let mut i: usize = 0;
    let mut pos: usize = 0;
    proof {
        assert(data@.take(0) =~= Seq::<u8>::empty());
    }
    while i < n
        invariant
            n == data@.len(),
            i <= n,
            i % 8 == 0 || i == n,
            pos == decoded_len_spec(i as int),
            pos <= buf@.len(),
            buf@.len() == old(buf)@.len(),
            buf@.len() >= decode_capacity_spec(n as int),
            forall|p: int| 0 <= p < pos ==> buf@[p] == decode_bytes_spec(data@.take(i as int))[p],
            forall|p: int| pos <= p < buf@.len() ==> buf@[p] == old(buf)@[p],
        decreases n - i,
    {
        let k = if n - i < 8 { n - i } else { 8 };
        let ghost gseq = data@.subrange(i as int, (i + k) as int);
        proof {
            lemma_decoded_len_step(i as int, k as int);
            lemma_decoded_len_mono_capacity((i + k) as int, n as int);
            assert(pos + k - 1 <= buf@.len());
        }
        let ghost dec_pre = decode_bytes_spec(data@.take(i as int));
        let mask = data[i];
        let mut j: usize = 0;
        while j + 1 < k
            invariant
                n == data@.len(),
                i + k <= n,
                1 <= k <= 8,
                i % 8 == 0,
                j + 1 <= k,
                gseq == data@.subrange(i as int, (i + k) as int),
                dec_pre == decode_bytes_spec(data@.take(i as int)),
                mask == gseq[0],
                pos == decoded_len_spec(i as int),
                pos + k - 1 <= buf@.len(),
                buf@.len() == old(buf)@.len(),
                forall|p: int| 0 <= p < pos ==> buf@[p] == dec_pre[p],
                forall|jj: int| 0 <= jj < j ==> buf@[pos + jj] == decode_group_spec(gseq)[jj],
                forall|p: int| pos + j <= p < buf@.len() ==> buf@[p] == old(buf)@[p],
            decreases k - j,
        {
            let b = data[i + 1 + j];
            buf[pos + j] = (((mask >> (j as u8)) & 1) << 7u8) | (b & 0x7f);
            proof {
                assert(gseq[j + 1] == b);
                assert(decode_group_spec(gseq)[j as int]
                    == ((((gseq[0] >> (j as u8)) & 1u8) << 7u8) | (gseq[j + 1] & 0x7fu8)));
            }
            j += 1;
        }
        proof {
            lemma_decode_group_assemble(data@, i as int, k as int, buf@, pos as int);
            assert(pos + k - 1 <= buf@.len());
        }
        i += k;
        pos += k - 1;
    }
    proof {
        assert(data@.take(n as int) =~= data@);
        lemma_decode_bytes_len(data@);
        assert(buf@ =~= decode_bytes_spec(data@)
            + old(buf)@.skip(decoded_len_spec(data@.len() as int)));
    }
    Ok(CodingResult::new(n, pos))
}

} // verus!
