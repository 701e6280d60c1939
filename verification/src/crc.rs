use vstd::prelude::*;

verus! {

/// The reflected generator polynomial of x^16 + x^12 + x^5 + 1.
pub const CRC_POLY: u16 = 0x8408;

/// The register value before the first byte.
pub const CRC_PRESET: u16 = 0xffff;

/// One bit step of the LSB-first shift register.
pub open spec fn crc_bit(crc: u16) -> u16 {
    (crc >> 1u16) ^ (if crc & 1u16 != 0 { CRC_POLY } else { 0u16 })
}

/// `n` bit steps of the shift register.
pub open spec fn crc_bits(crc: u16, n: nat) -> u16
    decreases n,
{
    if n == 0 {
        crc
    } else {
        crc_bits(crc_bit(crc), (n - 1) as nat)
    }
}

/// The register after one more byte: the byte is folded into the low
/// bits, then the register is shifted eight times.
pub open spec fn crc_update(crc: u16, byte: u8) -> u16 {
    crc_bits(crc ^ (byte as u16), 8)
}

/// The register after `data`, starting from `crc`.
pub open spec fn crc_from(crc: u16, data: Seq<u8>) -> u16
    decreases data.len(),
{
    if data.len() == 0 {
        crc
    } else {
        crc_update(crc_from(crc, data.drop_last()), data.last())
    }
}

/// The Video8 CRC-16 of `data`: preset 0xffff, LSB first, no final inversion.
pub open spec fn crc16(data: Seq<u8>) -> u16 {
    crc_from(CRC_PRESET, data)
}

/// The CRC recorded in bytes 11 and 12 of a block, little-endian.
pub open spec fn recorded_crc(block: Seq<u8>) -> u16 {
    (block[11] as int + 256 * (block[12] as int)) as u16
}

/// A block passes its check when the CRC of its first eleven bytes equals
/// the recorded one.
pub open spec fn block_crc_ok(block: Seq<u8>) -> bool {
    crc16(block.take(11)) == recorded_crc(block)
}

/// Computes the Video8 CRC-16 (x^16 + x^12 + x^5 + 1, preset 0xffff,
/// LSB first) of `data`.
pub fn crc16_video8(data: &[u8]) -> (crc: u16)
    ensures
        crc == crc16(data@),
{
    let mut crc: u16 = 0xffff;
    let mut i: usize = 0;
    while i < data.len()
        invariant
            i <= data@.len(),
            crc == crc16(data@.take(i as int)),
        decreases data@.len() - i,
    {
        let byte = data[i];
        assert(data@.take(i + 1).drop_last() =~= data@.take(i as int));
        crc = crc ^ (byte as u16);
        let ghost start = crc;
        let mut k: u32 = 0;
        while k < 8
            invariant
                k <= 8,
                crc_bits(start, 8) == crc_bits(crc, (8 - k) as nat),
            decreases 8 - k,
        {
            crc = (crc >> 1u16) ^ if crc & 1u16 != 0 { 0x8408u16 } else { 0u16 };
            k = k + 1;
        }
        i = i + 1;
    }
    assert(data@.take(data@.len() as int) =~= data@);
    crc
}

/// Checks a physical-order block: the CRC of bytes 0..11 against the
/// little-endian value in bytes 11 and 12.
pub fn crc_ok(block: &[u8]) -> (ok: bool)
    requires
        block@.len() >= 13,
    ensures
        ok == block_crc_ok(block@),
        ok <==> crc16(block@.take(11)) as int == block@[11] as int + 256 * (block@[12] as int),
{
    proof {
        lemma_block_check_is_whole_crc(block@);
    }
    let recorded: u16 = (block[11] as u16) + (block[12] as u16) * 256;
    let head = vstd::slice::slice_subrange(block, 0, 11);
    assert(head@ =~= block@.take(11));
    crc16_video8(head) == recorded
}

/// A block passes its check exactly when bytes 11 and 12 hold the whole
/// CRC of bytes 0..11, low byte first: both bytes of the CRC are compared.
pub proof fn lemma_block_check_is_whole_crc(block: Seq<u8>)
    requires
        block.len() >= 13,
    ensures
        block_crc_ok(block) <==> crc16(block.take(11)) as int == block[11] as int + 256 * (
        block[12] as int),
{
}

/// Eight bit steps written out, for the bit-vector solver.
spec fn crc_eight(c: u16) -> u16 {
    crc_bit(crc_bit(crc_bit(crc_bit(crc_bit(crc_bit(crc_bit(crc_bit(c))))))))
}

proof fn lemma_crc_bits_eight(c: u16)
    ensures
        crc_bits(c, 8) == crc_eight(c),
{
    reveal_with_fuel(crc_bits, 9);
}

/// Folding the low byte of the register back in and then the high byte
/// clears the register.
proof fn lemma_update_with_own_bytes(c: u16)
    ensures
        crc_update(crc_update(c, (c & 0xff) as u8), (c >> 8) as u8) == 0,
{
    let lo = (c & 0xff) as u8;
    let hi = (c >> 8) as u8;
    lemma_crc_bits_eight(c ^ (lo as u16));
    assert(crc_eight(c ^ (lo as u16)) == c >> 8) by (bit_vector)
        requires
            lo == (c & 0xff) as u8,
    ;
    lemma_crc_bits_eight((c >> 8) ^ (hi as u16));
    assert(crc_eight((c >> 8) ^ (hi as u16)) == 0) by (bit_vector)
        requires
            hi == (c >> 8) as u8,
    ;
}

/// The CRC register continued over more bytes.
pub proof fn lemma_crc_from_append(crc: u16, data: Seq<u8>, byte: u8)
    ensures
        crc_from(crc, data.push(byte)) == crc_update(crc_from(crc, data), byte),
{
    assert(data.push(byte).drop_last() =~= data);
}

/// Residue law: appending a block's CRC to its data, low byte first,
/// leaves a zero register.  A correctly recorded block therefore has a
/// CRC of zero over all of its bytes.
pub proof fn lemma_crc_residue(data: Seq<u8>)
    ensures
        crc16(data.push((crc16(data) & 0xff) as u8).push((crc16(data) >> 8) as u8)) == 0,
{
    let c = crc16(data);
    let lo = (c & 0xff) as u8;
    let hi = (c >> 8) as u8;
    lemma_crc_from_append(CRC_PRESET, data, lo);
    lemma_crc_from_append(CRC_PRESET, data.push(lo), hi);
    lemma_update_with_own_bytes(c);
}

/// A block whose bytes 11 and 12 hold the CRC of bytes 0..11, low byte
/// first, passes the check, and its CRC over all thirteen bytes is zero.
pub proof fn lemma_sealed_block_ok(block: Seq<u8>)
    requires
        block.len() == 13,
        block[11] == (crc16(block.take(11)) & 0xff) as u8,
        block[12] == (crc16(block.take(11)) >> 8) as u8,
    ensures
        block_crc_ok(block),
        crc16(block) == 0,
{
    let c = crc16(block.take(11));
    let b11 = block[11];
    let b12 = block[12];
    assert(b11 as int + 256 * (b12 as int) == c as int) by (bit_vector)
        requires
            b11 == (c & 0xff) as u8,
            b12 == (c >> 8) as u8,
    ;
    assert(block =~= block.take(11).push((c & 0xff) as u8).push((c >> 8) as u8));
    lemma_crc_residue(block.take(11));
}

} // verus!
