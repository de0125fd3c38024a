//! CRC-32 (IEEE, reflected form) used to validate completed transfers.

use vstd::prelude::*;

verus! {

/// One bit step of the reflected CRC: shift right, folding in the
/// reversed polynomial when the low bit was set.
pub open spec fn crc32_step(c: u32) -> u32 {
    if c & 1u32 == 1u32 {
        (c >> 1u32) ^ 0xEDB8_8320u32
    } else {
        c >> 1u32
    }
}

/// `n` bit steps applied to `c`.
pub open spec fn crc32_steps(c: u32, n: nat) -> u32
    decreases n,
{
    if n == 0 {
        c
    } else {
        crc32_step(crc32_steps(c, (n - 1) as nat))
    }
}

/// Folds one byte into the running remainder: xor it in, then eight bit
/// steps.
pub open spec fn crc32_update(c: u32, b: u8) -> u32 {
    crc32_steps(c ^ (b as u32), 8)
}

/// Folds a whole byte sequence into the running remainder.
pub open spec fn crc32_fold(c: u32, s: Seq<u8>) -> u32
    decreases s.len(),
{
    if s.len() == 0 {
        c
    } else {
        crc32_fold(crc32_update(c, s[0]), s.skip(1))
    }
}

/// The CRC-32 checksum of a byte sequence.
pub open spec fn crc32_spec(s: Seq<u8>) -> u32 {
    crc32_fold(0xFFFF_FFFFu32, s) ^ 0xFFFF_FFFFu32
}

/// Folding distributes over appending one byte at the end.
proof fn lemma_crc32_fold_push(c: u32, s: Seq<u8>, b: u8)
    ensures
        crc32_fold(c, s.push(b)) == crc32_update(crc32_fold(c, s), b),
    decreases s.len(),
{
    if s.len() == 0 {
        assert(s.push(b)[0] == b);
        assert(s.push(b).skip(1) =~= Seq::<u8>::empty());
        assert(crc32_fold(c, s.push(b))
            == crc32_fold(crc32_update(c, b), s.push(b).skip(1)));
        assert(crc32_fold(crc32_update(c, b), Seq::<u8>::empty()) == crc32_update(c, b));
        assert(crc32_fold(c, s) == c);
    } else {
        lemma_crc32_fold_push(crc32_update(c, s[0]), s.skip(1), b);
        assert(s.push(b)[0] == s[0]);
        assert(s.push(b).skip(1) =~= s.skip(1).push(b));
        assert(crc32_fold(c, s.push(b))
            == crc32_fold(crc32_update(c, s[0]), s.push(b).skip(1)));
        assert(crc32_fold(crc32_update(c, s[0]), s.skip(1).push(b))
            == crc32_update(crc32_fold(crc32_update(c, s[0]), s.skip(1)), b));
        assert(crc32_fold(c, s) == crc32_fold(crc32_update(c, s[0]), s.skip(1)));
    }
}

/// Computes the CRC-32 checksum of `data`.
pub fn crc32(data: &[u8]) -> (r: u32)
    ensures
        r == crc32_spec(data@),
{
    let n = data.len();
    let mut c: u32 = 0xFFFF_FFFF;
    let mut i: usize = 0;
    proof {
        assert(data@.take(0) =~= Seq::<u8>::empty());
    }
    while i < n
        invariant
            n == data@.len(),
            i <= n,
            c == crc32_fold(0xFFFF_FFFFu32, data@.take(i as int)),
        decreases n - i,
    {
        let b = data[i];
        c = c ^ (b as u32);
        let ghost c_in = c;
        let mut bit: usize = 0;
        while bit < 8
            invariant
                bit <= 8,
                c == crc32_steps(c_in, bit as nat),
            decreases 8 - bit,
        {
            if c & 1 == 1 {
                c = (c >> 1u32) ^ 0xEDB8_8320;
            } else {
                c = c >> 1u32;
            }
            bit += 1;
        }
        proof {
            assert(data@.take((i + 1) as int) =~= data@.take(i as int).push(data@[i as int]));
            lemma_crc32_fold_push(0xFFFF_FFFFu32, data@.take(i as int), data@[i as int]);
        }
        i += 1;
    }
    proof {
        assert(data@.take(n as int) =~= data@);
    }
    c ^ 0xFFFF_FFFF
}

} // verus!
