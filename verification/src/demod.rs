use vstd::prelude::*;

use crate::crc::{block_crc_ok, crc16, crc_ok, lemma_block_check_is_whole_crc};
use crate::{BLOCKS_PER_FIELD, BLOCK_BYTES};

verus! {

/// Bits from the address through the CRC of one block.
pub const PAYLOAD_BITS: usize = 104;

/// Bit cells from one block start to the next.
pub const BLOCK_BITS: usize = 107;

/// Extra phases scanned after the field grid has locked.
pub const PHASES_AFTER_LOCK: usize = 2;

/// Trials of the local block search: the predicted position and 24 steps
/// of 1/16 bit to either side.
pub const BLOCK_TRIALS: u32 = 49;

/// The byte formed from the first `n` bits at `start`, least significant
/// bit first.
pub open spec fn packed_prefix(bits: Seq<u8>, start: int, n: nat) -> u8
    decreases n,
{
    if n == 0 {
        0u8
    } else {
        packed_prefix(bits, start, (n - 1) as nat) | ((bits[start + n - 1] << ((n - 1) as u8))
            as u8)
    }
}

/// The byte formed from the eight bits at `start`, least significant bit
/// first.
pub open spec fn packed_byte(bits: Seq<u8>, start: int) -> u8 {
    packed_prefix(bits, start, 8)
}

/// The thirteen bytes packed from the 104 bits at `start`.
pub open spec fn block_at(bits: Seq<u8>, start: int) -> Seq<u8> {
    Seq::new(13, |k: int| packed_byte(bits, start + 8 * k))
}

/// A block starts at bit `start`: its address is one of the 132 of a
/// field and its CRC matches.
pub open spec fn block_starts_at(bits: Seq<u8>, start: int) -> bool {
    packed_byte(bits, start) < 132 && block_crc_ok(block_at(bits, start))
}

/// The block start positions among `0..n`, in increasing order.
pub open spec fn block_starts(bits: Seq<u8>, n: int) -> Seq<int>
    decreases n,
{
    if n <= 0 {
        Seq::empty()
    } else if block_starts_at(bits, n - 1) {
        block_starts(bits, n - 1).push(n - 1)
    } else {
        block_starts(bits, n - 1)
    }
}

/// The number of positions at which a whole block fits.
pub open spec fn block_positions(len: int) -> int {
    if len < 104 {
        0
    } else {
        len - 103
    }
}

/// A CRC-valid block found in a stream of demodulated bits.
#[derive(Clone, Copy, Debug)]
pub struct BitBlock {
    /// Index of the block's first bit.
    pub start: usize,
    /// The block's address byte.
    pub address: u8,
    /// The whole block in physical order.
    pub raw: [u8; BLOCK_BYTES],
}

/// Packs the eight bits at `start` into a byte, least significant bit
/// first.
pub fn pack_byte(bits: &[u8], start: usize) -> (value: u8)
    requires
        start + 8 <= bits@.len(),
    ensures
        value == packed_byte(bits@, start as int),
{
    let len = bits.len();
    let mut value: u8 = 0;
    let mut bit: usize = 0;
    while bit < 8
        invariant
            len == bits@.len(),
            bit <= 8,
            start + 8 <= bits@.len(),
            value == packed_prefix(bits@, start as int, bit as nat),
        decreases 8 - bit,
    {
        let shift = bit as u8;
        value = value | (bits[start + bit] << shift);
        bit = bit + 1;
    }
    value
}

/// With bits that are all 0 or 1, the packed byte is the binary number
/// they spell, least significant bit first.
pub proof fn lemma_packed_byte_value(bits: Seq<u8>, start: int)
    requires
        0 <= start,
        start + 8 <= bits.len(),
        forall|i: int| start <= i < start + 8 ==> #[trigger] bits[i] <= 1,
    ensures
        packed_byte(bits, start) as int == bits[start] + 2 * bits[start + 1] + 4 * bits[start
            + 2] + 8 * bits[start + 3] + 16 * bits[start + 4] + 32 * bits[start + 5] + 64
            * bits[start + 6] + 128 * bits[start + 7],
{
    reveal_with_fuel(packed_prefix, 9);
    let b0 = bits[start];
    let b1 = bits[start + 1];
    let b2 = bits[start + 2];
    let b3 = bits[start + 3];
    let b4 = bits[start + 4];
    let b5 = bits[start + 5];
    let b6 = bits[start + 6];
    let b7 = bits[start + 7];
    assert(((((((((0u8 | ((b0 << 0u8) as u8)) | ((b1 << 1u8) as u8)) | ((b2 << 2u8) as u8)) | ((b3
        << 3u8) as u8)) | ((b4 << 4u8) as u8)) | ((b5 << 5u8) as u8)) | ((b6 << 6u8) as u8)) | ((b7
        << 7u8) as u8)) as int == b0 + 2 * b1 + 4 * b2 + 8 * b3 + 16 * b4 + 32 * b5 + 64 * b6 + 128
        * b7) by (bit_vector)
        requires
            b0 <= 1,
            b1 <= 1,
            b2 <= 1,
            b3 <= 1,
            b4 <= 1,
            b5 <= 1,
            b6 <= 1,
            b7 <= 1,
    ;
}

/// The bits of `bytes` in transmission order: each byte least significant
/// bit first.
pub open spec fn bit_expansion(bytes: Seq<u8>) -> Seq<u8> {
    Seq::new(8 * bytes.len(), |j: int| (bytes[j / 8] >> ((j % 8) as u8)) & 1u8)
}

/// Packing the bits of a byte, least significant first, gives the byte back.
proof fn lemma_pack_expanded_byte(bits: Seq<u8>, start: int, x: u8)
    requires
        0 <= start,
        start + 8 <= bits.len(),
        forall|i: int| 0 <= i < 8 ==> #[trigger] bits[start + i] == (x >> (i as u8)) & 1u8,
    ensures
        packed_byte(bits, start) == x,
{
    reveal_with_fuel(packed_prefix, 9);
    assert(bits[start + 0] == (x >> 0u8) & 1u8);
    assert(bits[start + 1] == (x >> 1u8) & 1u8);
    assert(bits[start + 2] == (x >> 2u8) & 1u8);
    assert(bits[start + 3] == (x >> 3u8) & 1u8);
    assert(bits[start + 4] == (x >> 4u8) & 1u8);
    assert(bits[start + 5] == (x >> 5u8) & 1u8);
    assert(bits[start + 6] == (x >> 6u8) & 1u8);
    assert(bits[start + 7] == (x >> 7u8) & 1u8);
    assert(((((((((0u8 | ((((x >> 0u8) & 1u8) << 0u8) as u8)) | ((((x >> 1u8) & 1u8) << 1u8) as u8))
        | ((((x >> 2u8) & 1u8) << 2u8) as u8)) | ((((x >> 3u8) & 1u8) << 3u8) as u8)) | ((((x >> 4u8)
        & 1u8) << 4u8) as u8)) | ((((x >> 5u8) & 1u8) << 5u8) as u8)) | ((((x >> 6u8) & 1u8) << 6u8)
        as u8)) | ((((x >> 7u8) & 1u8) << 7u8) as u8)) == x) by (bit_vector);
}

/// The block positions below `n` include every position below `n` at
/// which a block starts.
proof fn lemma_block_starts_contains(bits: Seq<u8>, n: int, p: int)
    requires
        0 <= p < n,
        block_starts_at(bits, p),
    ensures
        block_starts(bits, n).contains(p),
    decreases n,
{
    if p == n - 1 {
        assert(block_starts(bits, n).last() == p);
    } else {
        lemma_block_starts_contains(bits, n - 1, p);
        let prev = block_starts(bits, n - 1);
        let k = choose|k: int| 0 <= k < prev.len() && prev[k] == p;
        if block_starts_at(bits, n - 1) {
            assert(block_starts(bits, n)[k] == p);
        }
    }
}

/// Soundness of the block positions: each lies where a whole block fits,
/// in increasing order, and the 104 bits there pack to a block whose address
/// names one of the 132 blocks of a field and whose bytes 11 and 12 hold the
/// CRC of its bytes 0..11.
pub proof fn lemma_block_starts_sound(bits: Seq<u8>, n: int, k: int)
    requires
        n <= block_positions(bits.len() as int),
        0 <= k < block_starts(bits, n).len(),
    ensures
        ({
            let p = block_starts(bits, n)[k];
            let raw = block_at(bits, p);
            &&& 0 <= p < n
            &&& p + 104 <= bits.len()
            &&& raw[0] < 132
            &&& crc16(raw.take(11)) as int == raw[11] as int + 256 * (raw[12] as int)
            &&& forall|k2: int| k < k2 < block_starts(bits, n).len() ==> p < #[trigger] block_starts(bits, n)[k2]
        }),
    decreases n,
{
    if n > 0 {
        if k < block_starts(bits, n - 1).len() {
            lemma_block_starts_sound(bits, n - 1, k);
            assert(block_starts(bits, n)[k] == block_starts(bits, n - 1)[k]);
            assert forall|k2: int| k < k2 < block_starts(bits, n).len() implies block_starts(bits, n)[k] < #[trigger] block_starts(bits, n)[k2] by {
                if k2 < block_starts(bits, n - 1).len() {
                    assert(block_starts(bits, n)[k2] == block_starts(bits, n - 1)[k2]);
                } else {
                    assert(block_starts(bits, n)[k2] == n - 1);
                }
            }
        } else {
            let p = n - 1;
            lemma_block_check_is_whole_crc(block_at(bits, p));
        }
    }
}

/// Round trip of the bit stream: a block with a valid address and a
/// matching CRC, sent least significant bit first, is found at the
/// position where it was placed and packs back to itself.
pub proof fn lemma_scan_finds_sent_block(bits: Seq<u8>, start: int, block: Seq<u8>)
    requires
        block.len() == 13,
        block[0] < 132,
        block_crc_ok(block),
        0 <= start,
        start + 104 <= bits.len(),
        bits.subrange(start, start + 104) == bit_expansion(block),
    ensures
        block_at(bits, start) == block,
        block_starts(bits, block_positions(bits.len() as int)).contains(start),
{
    assert forall|k: int| 0 <= k < 13 implies #[trigger] block_at(bits, start)[k] == block[k] by {
        assert forall|i: int| 0 <= i < 8 implies #[trigger] bits[start + 8 * k + i] == (block[k] >> (
        i as u8)) & 1u8 by {
            assert(bits[start + 8 * k + i] == bits.subrange(start, start + 104)[8 * k + i]);
            assert((8 * k + i) / 8 == k);
            assert((8 * k + i) % 8 == i);
        }
        lemma_pack_expanded_byte(bits, start + 8 * k, block[k]);
    }
    assert(block_at(bits, start) =~= block);
    lemma_block_starts_contains(bits, block_positions(bits.len() as int), start);
}

/// Packs the 104 bits at `start` into the thirteen bytes of a block.
pub fn pack_block(bits: &[u8], start: usize) -> (raw: [u8; BLOCK_BYTES])
    requires
        start + 104 <= bits@.len(),
    ensures
        raw@ == block_at(bits@, start as int),
{
    let len = bits.len();
    let mut raw: [u8; BLOCK_BYTES] = [0u8; BLOCK_BYTES];
    let mut byte: usize = 0;
    while byte < BLOCK_BYTES
        invariant
            len == bits@.len(),
            byte <= 13,
            start + 104 <= bits@.len(),
            forall|k: int| 0 <= k < byte ==> #[trigger] raw@[k] == packed_byte(bits@, start + 8 * k),
        decreases 13 - byte,
    {
        raw[byte] = pack_byte(bits, start + byte * 8);
        byte = byte + 1;
    }
    assert(raw@ =~= block_at(bits@, start as int));
    raw
}

/// Finds every CRC-valid block in a stream of demodulated bits, in order
/// of its first bit.  A position is tried only when its address byte names
/// one of the 132 blocks of a field.
pub fn scan_bits(bits: &[u8]) -> (found: Vec<BitBlock>)
    ensures
        found@.len() == block_starts(bits@, block_positions(bits@.len() as int)).len(),
        forall|k: int|
            0 <= k < found@.len() ==> {
                let start = block_starts(bits@, block_positions(bits@.len() as int))[k];
                &&& (#[trigger] found@[k]).start == start
                &&& found@[k].raw@ == block_at(bits@, start)
                &&& found@[k].address == found@[k].raw@[0]
            },
        forall|k: int|
            0 <= k < found@.len() ==> {
                let raw = (#[trigger] found@[k]).raw@;
                &&& found@[k].start + 104 <= bits@.len()
                &&& found@[k].address < 132
                &&& raw[0] == found@[k].address
                &&& crc16(raw.take(11)) as int == raw[11] as int + 256 * (raw[12] as int)
            },
        forall|k1: int, k2: int|
            0 <= k1 < k2 < found@.len() ==> (#[trigger] found@[k1]).start < (#[trigger] found@[k2]).start,
{
    let mut found: Vec<BitBlock> = Vec::new();
    if bits.len() < PAYLOAD_BITS {
        return found;
    }
    let positions = bits.len() - (PAYLOAD_BITS - 1);
    let mut start: usize = 0;
    while start < positions
        invariant
            bits@.len() >= 104,
            positions == bits@.len() - 103,
            start <= positions,
            found@.len() == block_starts(bits@, start as int).len(),
            forall|k: int|
                0 <= k < found@.len() ==> {
                    let s = block_starts(bits@, start as int)[k];
                    &&& (#[trigger] found@[k]).start == s
                    &&& found@[k].raw@ == block_at(bits@, s)
                    &&& found@[k].address == found@[k].raw@[0]
                },
            forall|k: int|
                0 <= k < found@.len() ==> {
                    let raw = (#[trigger] found@[k]).raw@;
                    &&& found@[k].start < start
                    &&& found@[k].start + 104 <= bits@.len()
                    &&& found@[k].address < 132
                    &&& raw[0] == found@[k].address
                    &&& crc16(raw.take(11)) as int == raw[11] as int + 256 * (raw[12] as int)
                },
            forall|k1: int, k2: int|
                0 <= k1 < k2 < found@.len() ==> (#[trigger] found@[k1]).start < (#[trigger] found@[k2]).start,
        decreases positions - start,
    {
        // The address is tested before the remaining 96 bits are packed.
        let address = pack_byte(bits, start);
        if address < BLOCKS_PER_FIELD as u8 {
            let raw = pack_block(bits, start);
            assert(raw@[0] == address);
            if crc_ok(&raw) {
                found.push(BitBlock { start, address, raw });
            }
        }
        start = start + 1;
    }
    found
}

/// The offset, in sixteenths of a bit, of trial `trial` of the local
/// block search: 0 first, then +1, -1, +2, -2, ... out to 24.
pub open spec fn trial_offset_spec(trial: int) -> int {
    if trial == 0 {
        0
    } else if trial % 2 == 1 {
        (trial + 1) / 2
    } else {
        -((trial + 1) / 2)
    }
}

/// The offset, in sixteenths of a bit, of trial `trial` of the local
/// block search around a predicted block position.
pub fn trial_offset(trial: u32) -> (offset: i32)
    requires
        trial < BLOCK_TRIALS,
    ensures
        offset == trial_offset_spec(trial as int),
{
    if trial == 0 {
        0
    } else {
        let distance = ((trial + 1) / 2) as i32;
        if trial % 2 == 1 {
            distance
        } else {
            -distance
        }
    }
}

/// The search visits every offset from -24 to 24 sixteenths of a bit
/// (out to 1.5 bits) exactly once, the predicted position first and then
/// moving outwards, never nearer than an earlier trial.
pub proof fn lemma_trial_schedule(t1: int, t2: int, offset: int)
    requires
        0 <= t1 < 49,
        0 <= t2 < 49,
        -24 <= offset <= 24,
    ensures
        -24 <= trial_offset_spec(t1) <= 24,
        trial_offset_spec(0) == 0,
        trial_offset_spec(t1) == trial_offset_spec(t2) ==> t1 == t2,
        t1 <= t2 ==> (if trial_offset_spec(t1) < 0 {
            -trial_offset_spec(t1)
        } else {
            trial_offset_spec(t1)
        }) <= (if trial_offset_spec(t2) < 0 {
            -trial_offset_spec(t2)
        } else {
            trial_offset_spec(t2)
        }),
        trial_offset_spec(
            if offset == 0 {
                0
            } else if offset > 0 {
                2 * offset - 1
            } else {
                -2 * offset
            },
        ) == offset,
{
}

/// What the phase scan does after a phase has been scanned.
#[derive(Clone, Copy, Debug, PartialEq, Eq, Structural)]
pub enum PhaseStep {
    /// Enough phases have been scanned since the field grid locked.
    Stop,
    /// Scan the next phase; the count of phases still wanted after a lock,
    /// if the grid has locked.
    Next(Option<usize>),
}

/// The countdown of phases still wanted after the field grid locked:
/// nothing changes before a lock, and the scan stops once the last wanted
/// phase has been scanned.
pub open spec fn countdown(remaining: Option<usize>) -> PhaseStep {
    match remaining {
        None => PhaseStep::Next(None),
        Some(r) => if r <= 1 {
            PhaseStep::Stop
        } else {
            PhaseStep::Next(Some((r - 1) as usize))
        },
    }
}

/// Decides, after a phase has been scanned, whether to scan the next one.
pub fn countdown_step(remaining: Option<usize>) -> (step: PhaseStep)
    requires
        remaining != Some(0usize),
    ensures
        step == countdown(remaining),
{
    match remaining {
        None => PhaseStep::Next(None),
        Some(r) => if r == 1 {
            PhaseStep::Stop
        } else {
            PhaseStep::Next(Some(r - 1))
        },
    }
}

/// Whether to test the phases scanned so far for a field lock: only a
/// single worker asked to stop early, and only before the first lock.
pub fn should_check_lock(remaining: Option<usize>, stop_after_field_lock: bool, workers: usize) -> (check: bool)
    ensures
        check == (stop_after_field_lock && workers == 1 && remaining is None),
{
    stop_after_field_lock && workers == 1 && remaining.is_none()
}

/// Once the grid locks after a phase, exactly two more phases are
/// scanned: the first keeps the scan going and the second ends it.
pub proof fn lemma_two_phases_after_lock()
    ensures
        countdown(Some(PHASES_AFTER_LOCK)) == PhaseStep::Next(Some(1usize)),
        countdown(Some(1usize)) == PhaseStep::Stop,
{
}

} // verus!
