//! Turning a program image of bytes into instruction words.
use vstd::prelude::*;

verus! {

/// The word whose four bytes, most significant first, are `b0 b1 b2 b3`.
pub open spec fn be_word(b0: u8, b1: u8, b2: u8, b3: u8) -> nat {
    (b0 * 0x0100_0000 + b1 * 0x0001_0000 + b2 * 0x0100 + b3) as nat
}

/// The word that starts at byte `4 * i` of `bytes`.
pub open spec fn word_at(bytes: Seq<u8>, i: int) -> nat {
    be_word(bytes[4 * i], bytes[4 * i + 1], bytes[4 * i + 2], bytes[4 * i + 3])
}

/// Reads four bytes as one big-endian word.
pub fn buffer_to_platter(buffer: &[u8; 4]) -> (r: u32)
    ensures
        r as nat == be_word(buffer@[0], buffer@[1], buffer@[2], buffer@[3]),
{
    let (b0, b1, b2, b3) = (buffer[0], buffer[1], buffer[2], buffer[3]);
    let r = ((b0 as u32) << 24u32) | ((b1 as u32) << 16u32) | ((b2 as u32) << 8u32) | (b3 as u32);
    assert(((b0 as u32) << 24u32) | ((b1 as u32) << 16u32) | ((b2 as u32) << 8u32) | (b3 as u32)
        == b0 * 0x0100_0000 + b1 * 0x0001_0000 + b2 * 0x0100 + b3) by (bit_vector);
    r
}

/// Splits a program image into words, four bytes each, most significant byte
/// first; a trailing partial word is dropped.
pub fn platters_from_bytes(bytes: &Vec<u8>) -> (r: Vec<u32>)
    ensures
        r@.len() == bytes@.len() / 4,
        forall|i: int| 0 <= i < r@.len() ==> #[trigger] r@[i] as nat == word_at(bytes@, i),
{
    let n: usize = bytes.len() / 4;
    let mut r: Vec<u32> = Vec::with_capacity(n);
    let mut i: usize = 0;
    while i < n
        invariant
            n == bytes@.len() / 4,
            i <= n,
            r@.len() == i,
            forall|k: int| 0 <= k < i ==> #[trigger] r@[k] as nat == word_at(bytes@, k),
        decreases n - i,
    {
        assert(4 * i + 3 < bytes@.len()) by (nonlinear_arith)
            requires
                i < n,
                n == bytes@.len() / 4,
        ;
        assert(bytes@.len() == bytes.len());
        let j: usize = 4 * i;
        let buffer: [u8; 4] = [bytes[j], bytes[j + 1], bytes[j + 2], bytes[j + 3]];
        r.push(buffer_to_platter(&buffer));
        i = i + 1;
    }
    r
}

} // verus!
