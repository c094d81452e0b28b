//! Framing of the messages between listening nodes: each message is sent
//! after a four-byte big-endian length prefix.

use vstd::prelude::*;

use crate::mining::target::be_value;

verus! {

/// The four big-endian bytes of `n`.
pub open spec fn be_u32_bytes(n: u32) -> Seq<u8> {
    seq![
        (n / 0x100_0000) as u8,
        (n / 0x1_0000 % 0x100) as u8,
        (n / 0x100 % 0x100) as u8,
        (n % 0x100) as u8,
    ]
}

/// The length prefix sent before a message of `len` bytes: the length
/// truncated to 32 bits, most significant byte first.
pub fn frame_prefix(len: usize) -> (res: Vec<u8>)
    ensures
        res@ == be_u32_bytes((len as int % 0x1_0000_0000) as u32),
{
    let n: u32 = ((len as u64) % 0x1_0000_0000) as u32;
    let mut out: Vec<u8> = Vec::new();
    out.push((n / 0x100_0000) as u8);
    out.push((n / 0x1_0000 % 0x100) as u8);
    out.push((n / 0x100 % 0x100) as u8);
    out.push((n % 0x100) as u8);
    assert(out@ =~= be_u32_bytes(n));
    out
}

/// The message length that a four-byte prefix announces.
pub fn frame_length(prefix: &[u8]) -> (res: u32)
    requires
        prefix@.len() == 4,
    ensures
        res == be_value(prefix@),
{
    let b0 = prefix[0] as u32;
    let b1 = prefix[1] as u32;
    let b2 = prefix[2] as u32;
    let b3 = prefix[3] as u32;
    proof {
        let s = prefix@;
        assert(s.drop_last().drop_last().drop_last().drop_last() =~= Seq::<u8>::empty());
        reveal_with_fuel(be_value, 5);
    }
    ((b0 * 0x100 + b1) * 0x100 + b2) * 0x100 + b3
}

/// Law: the length read back from the prefix of a message is the message's
/// length, for every length that fits in 32 bits.
pub proof fn lemma_frame_length_of_prefix(n: u32)
    ensures
        be_value(be_u32_bytes(n)) == n,
{
    let s = be_u32_bytes(n);
    assert(s.drop_last().drop_last().drop_last().drop_last() =~= Seq::<u8>::empty());
    reveal_with_fuel(be_value, 5);
    assert((((n / 0x100_0000) * 0x100 + n / 0x1_0000 % 0x100) * 0x100 + n / 0x100 % 0x100) * 0x100
        + n % 0x100 == n) by (bit_vector);
}

} // verus!
