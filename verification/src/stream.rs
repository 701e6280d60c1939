use vstd::prelude::*;

use crate::crc::{crc16, crc16_video8, recorded_crc};
use crate::{BLOCKS_PER_FIELD, BLOCK_BYTES};

verus! {

/// What to do after one read into the unfilled tail of a buffer.
#[derive(Clone, Copy, Debug, PartialEq, Eq, Structural)]
pub enum FillStep {
    /// The buffer now holds this many bytes; read on while it is not full.
    Progress(usize),
    /// The input ended before the first byte: a clean end of the stream.
    EndOfInput,
    /// The input ended inside the buffer: a truncated unit.
    Truncated,
}

/// Decides the next step of filling a buffer of `len` bytes that holds
/// `filled` bytes, after a read returned `n` bytes.
pub fn fill_step(filled: usize, len: usize, n: usize) -> (step: FillStep)
    requires
        filled < len,
        n <= len - filled,
    ensures
        step == FillStep::EndOfInput <==> n == 0 && filled == 0,
        step == FillStep::Truncated <==> n == 0 && filled > 0,
        n > 0 ==> step == FillStep::Progress((filled + n) as usize),
        step matches FillStep::Progress(f) ==> filled < f <= len,
{
    if n == 0 {
        if filled == 0 {
            FillStep::EndOfInput
        } else {
            FillStep::Truncated
        }
    } else {
        FillStep::Progress(filled + n)
    }
}

/// The outcome of checking one block of a block stream.
#[derive(Clone, Copy, Debug, PartialEq, Eq, Structural)]
pub struct BlockReport {
    /// The address the block should carry at its position in the stream.
    pub expected: u8,
    /// The CRC recorded in the block.
    pub recorded: u16,
    /// The CRC computed over the block's first eleven bytes.
    pub calculated: u16,
    /// The two CRCs agree.
    pub ok: bool,
}

/// Running statistics over a stream of physical-order blocks.
#[derive(Clone, Copy, Debug, PartialEq, Eq, Structural)]
pub struct CrcStats {
    /// Blocks seen.
    pub total: usize,
    /// Blocks whose CRC matched.
    pub good: usize,
    /// Blocks whose address differed from their position in the field.
    pub address_errors: usize,
}

impl CrcStats {
    /// The counts are consistent: no more good blocks or address errors
    /// than blocks.
    pub open spec fn wf(self) -> bool {
        self.good <= self.total && self.address_errors <= self.total
    }

    /// Statistics before the first block.
    pub fn new() -> (stats: Self)
        ensures
            stats.wf(),
            stats.total == 0,
            stats.good == 0,
            stats.address_errors == 0,
    {
        CrcStats { total: 0, good: 0, address_errors: 0 }
    }

    /// Checks the next block of the stream and counts it.
    pub fn record(&mut self, block: &[u8; BLOCK_BYTES]) -> (report: BlockReport)
        requires
            old(self).wf(),
            old(self).total < usize::MAX,
        ensures
            final(self).wf(),
            report.expected as int == old(self).total % 132,
            report.recorded == recorded_crc(block@),
            report.calculated == crc16(block@.take(11)),
            report.ok == (report.recorded == report.calculated),
            final(self).total == old(self).total + 1,
            final(self).good == old(self).good + if report.ok {
                1int
            } else {
                0int
            },
            final(self).address_errors == old(self).address_errors + if block@[0]
                == report.expected {
                0int
            } else {
                1int
            },
    {
        let expected = (self.total % BLOCKS_PER_FIELD) as u8;
        let recorded: u16 = (block[11] as u16) + (block[12] as u16) * 256;
        let head = vstd::slice::slice_subrange(block.as_slice(), 0, 11);
        assert(head@ =~= block@.take(11));
        let calculated = crc16_video8(head);
        let ok = recorded == calculated;
        if ok {
            self.good = self.good + 1;
        }
        if block[0] != expected {
            self.address_errors = self.address_errors + 1;
        }
        self.total = self.total + 1;
        BlockReport { expected, recorded, calculated, ok }
    }

    /// Blocks whose CRC did not match.
    pub fn crc_bad(&self) -> (bad: usize)
        requires
            self.wf(),
        ensures
            bad == self.total - self.good,
    {
        self.total - self.good
    }

    /// Every block seen so far passed its CRC.
    pub fn all_ok(&self) -> (ok: bool)
        ensures
            ok == (self.good == self.total),
    {
        self.good == self.total
    }
}

} // verus!
