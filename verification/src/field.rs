use vstd::prelude::*;

use crate::crc::{block_crc_ok, crc16, crc_ok, lemma_block_check_is_whole_crc};
use crate::expand::{expand_pcm_byte, expanded};
use crate::{BLOCKS_PER_FIELD, BLOCK_BYTES, FIELD_BYTES, SAMPLES_PER_FIELD};

verus! {

/// One decoded stereo field: for each of the 525 sample times, the left and
/// right channel, `None` where the carrying block was rejected.
pub type FieldAudio = [[Option<i16>; 2]; SAMPLES_PER_FIELD];

/// Data words per block.
pub const WORDS_PER_BLOCK: usize = 8;

/// The data word (0..8) that carries sample time `s`.
pub open spec fn word_of_sample(s: int) -> int {
    if s < 63 {
        0
    } else {
        (s - 63) / 66 + 1
    }
}

/// The first sample time carried by data word `w`.
pub open spec fn word_base(w: int) -> int {
    if w == 0 {
        0
    } else {
        63 + 66 * (w - 1)
    }
}

/// Byte offset of data word `w` within a physical block: the address and
/// Q come first, P sits between W3 and W4.
pub open spec fn word_offset(w: int) -> int {
    if w < 4 {
        w + 2
    } else {
        w + 3
    }
}

/// The interleave group (0..3) of sample time `s`.
pub open spec fn sample_group(s: int) -> int {
    (s - word_base(word_of_sample(s))) % 3
}

/// The channel pair index of sample time `s` within its group.
pub open spec fn sample_pair(s: int) -> int {
    (s - word_base(word_of_sample(s))) / 3
}

/// The block column (address modulo 44) that carries channel `c` of
/// sample time `s`; word 0 starts two columns later.
pub open spec fn sample_column(s: int, c: int) -> int {
    if word_of_sample(s) == 0 {
        2 + 2 * sample_pair(s) + c
    } else {
        2 * sample_pair(s) + c
    }
}

/// The block address that carries channel `c` of sample time `s`.
pub open spec fn sample_address(s: int, c: int) -> int {
    44 * sample_group(s) + sample_column(s, c)
}

/// The sample time that word `w` of the block at `address` carries.
pub open spec fn target_sample(address: int, w: int) -> int {
    let column = address % 44;
    let pair = if w == 0 {
        (column - 2) / 2
    } else {
        column / 2
    };
    word_base(w) + address / 44 + 3 * pair
}

/// The channel that every word of the block at `address` carries.
pub open spec fn target_channel(address: int) -> int {
    (address % 44) % 2
}

/// A word position carries audio unless it is word 0 in the first two
/// columns of a group.
pub open spec fn carries_audio(address: int, w: int) -> bool {
    0 <= address < 132 && 0 <= w < 8 && (w > 0 || address % 44 >= 2)
}

/// The thirteen bytes of the block at `address` within a field.
pub open spec fn field_block(field: Seq<u8>, address: int) -> Seq<u8> {
    field.subrange(13 * address, 13 * address + 13)
}

/// What a field decodes to at channel `c` of sample time `s`: the
/// expansion of the carrying byte, unless the carrying block fails its
/// CRC and bad blocks are not to be used.
pub open spec fn decoded_slot(field: Seq<u8>, use_bad_crc: bool, s: int, c: int) -> Option<i16> {
    let address = sample_address(s, c);
    if use_bad_crc || block_crc_ok(field_block(field, address)) {
        Some(expanded(field[13 * address + word_offset(word_of_sample(s))]) as i16)
    } else {
        None
    }
}

/// Each carrying word position lands on a sample slot, and that slot is
/// carried by exactly that block and word.
pub proof fn lemma_target_inverts(address: int, w: int)
    requires
        carries_audio(address, w),
    ensures
        0 <= target_sample(address, w) < 525,
        0 <= target_channel(address) < 2,
        word_of_sample(target_sample(address, w)) == w,
        sample_address(target_sample(address, w), target_channel(address)) == address,
{
}

/// Every sample slot is carried by some word position, which leads back
/// to that very slot.
pub proof fn lemma_slot_carried(s: int, c: int)
    requires
        0 <= s < 525,
        0 <= c < 2,
    ensures
        carries_audio(sample_address(s, c), word_of_sample(s)),
        target_sample(sample_address(s, c), word_of_sample(s)) == s,
        target_channel(sample_address(s, c)) == c,
{
}

/// With bad blocks in use, every slot of a decoded field holds a sample:
/// the 1050 carrying word positions cover the 525 stereo sample times.
pub proof fn lemma_decode_complete_with_bad_crc(field: Seq<u8>)
    ensures
        forall|s: int, c: int|
            0 <= s < 525 && 0 <= c < 2 ==> (#[trigger] decoded_slot(field, true, s, c)) is Some,
{
}

/// A block that fails its CRC empties exactly the slots it carries; all
/// other slots are unaffected by it.
pub proof fn lemma_bad_block_local(field: Seq<u8>, s: int, c: int)
    requires
        0 <= s < 525,
        0 <= c < 2,
    ensures
        decoded_slot(field, false, s, c) is None <==> !block_crc_ok(
            field_block(field, sample_address(s, c)),
        ),
        decoded_slot(field, false, s, c) is Some ==> decoded_slot(field, false, s, c) == decoded_slot(
            field,
            true,
            s,
            c,
        ),
{
}

/// What a decoded slot holds, in terms of the field's bytes: with bad
/// blocks in use, always the expansion of the carrying byte, whatever the
/// carrying block's CRC or address byte; otherwise that expansion exactly
/// when bytes 11 and 12 of the carrying block hold the CRC of its bytes
/// 0..11, and nothing else.
pub proof fn lemma_decoded_slot_law(field: Seq<u8>, use_bad_crc: bool, s: int, c: int)
    requires
        field.len() == 1716,
        0 <= s < 525,
        0 <= c < 2,
    ensures
        ({
            let a = sample_address(s, c);
            let byte = field[13 * a + word_offset(word_of_sample(s))];
            &&& 0 <= a < 132
            &&& 2 <= word_offset(word_of_sample(s)) <= 10
            &&& use_bad_crc ==> decoded_slot(field, use_bad_crc, s, c) == Some(expanded(byte) as i16)
            &&& !use_bad_crc ==> (decoded_slot(field, use_bad_crc, s, c) is Some <==> crc16(
                field.subrange(13 * a, 13 * a + 11),
            ) as int == field[13 * a + 11] as int + 256 * (field[13 * a + 12] as int))
            &&& decoded_slot(field, use_bad_crc, s, c) is Some ==> decoded_slot(
                field,
                use_bad_crc,
                s,
                c,
            ) == Some(expanded(byte) as i16)
        }),
{
    lemma_slot_carried(s, c);
    let a = sample_address(s, c);
    let block = field_block(field, a);
    lemma_block_check_is_whole_crc(block);
    assert(block.take(11) =~= field.subrange(13 * a, 13 * a + 11));
    assert(block[11] == field[13 * a + 11]);
    assert(block[12] == field[13 * a + 12]);
}

/// Decodes one field of 132 physical-order blocks into 525 stereo sample
/// times.  Samples of blocks that fail their CRC stay `None` unless
/// `use_bad_crc` is set.
#[verifier::rlimit(40)]
pub fn decode_field(field: &[u8; FIELD_BYTES], use_bad_crc: bool) -> (audio: FieldAudio)
    ensures
        forall|s: int, c: int|
            0 <= s < 525 && 0 <= c < 2 ==> {
                let a = sample_address(s, c);
                let byte = field@[13 * a + word_offset(word_of_sample(s))];
                &&& use_bad_crc ==> #[trigger] audio@[s]@[c] == Some(expanded(byte) as i16)
                &&& !use_bad_crc ==> (audio@[s]@[c] is Some <==> crc16(
                    field@.subrange(13 * a, 13 * a + 11),
                ) as int == field@[13 * a + 11] as int + 256 * (field@[13 * a + 12] as int))
                &&& audio@[s]@[c] is Some ==> audio@[s]@[c] == Some(expanded(byte) as i16)
            },
        forall|s: int, c: int|
            0 <= s < 525 && 0 <= c < 2 ==> #[trigger] audio@[s]@[c] == decoded_slot(
                field@,
                use_bad_crc,
                s,
                c,
            ),
{
    let mut audio: FieldAudio = [[None; 2]; SAMPLES_PER_FIELD];
    let bases: [usize; 8] = [0, 63, 129, 195, 261, 327, 393, 459];
    // Physical order after address: Q,W0,W1,W2,W3,P,W4,W5,W6,W7.
    let physical_word: [usize; 8] = [1, 2, 3, 4, 6, 7, 8, 9];
    let mut address: usize = 0;
    while address < BLOCKS_PER_FIELD
        invariant
            address <= 132,
            field@.len() == 1716,
            forall|w: int| 0 <= w < 8 ==> #[trigger] bases@[w] == word_base(w),
            forall|w: int| 0 <= w < 8 ==> #[trigger] physical_word@[w] + 1 == word_offset(w),
            forall|s: int, c: int|
                0 <= s < 525 && 0 <= c < 2 ==> #[trigger] audio@[s]@[c] == if sample_address(s, c)
                    < address {
                    decoded_slot(field@, use_bad_crc, s, c)
                } else {
                    None
                },
        decreases 132 - address,
    {
        let at = address * BLOCK_BYTES;
        let block = vstd::slice::slice_subrange(field.as_slice(), at, at + BLOCK_BYTES);
        assert(block@ =~= field_block(field@, address as int));
        if !use_bad_crc && !crc_ok(block) {
            address = address + 1;
            continue;
        }
        let group = address / 44;
        let column = address % 44;
        let mut word_index: usize = 0;
        while word_index < WORDS_PER_BLOCK
            invariant
                address < 132,
                group == address / 44,
                column == address % 44,
                word_index <= 8,
                field@.len() == 1716,
                block@ == field_block(field@, address as int),
                use_bad_crc || block_crc_ok(block@),
                forall|w: int| 0 <= w < 8 ==> #[trigger] bases@[w] == word_base(w),
                forall|w: int| 0 <= w < 8 ==> #[trigger] physical_word@[w] + 1 == word_offset(w),
                forall|s: int, c: int|
                    0 <= s < 525 && 0 <= c < 2 ==> #[trigger] audio@[s]@[c] == if sample_address(
                        s,
                        c,
                    ) < address || (sample_address(s, c) == address && word_of_sample(s)
                        < word_index) {
                        decoded_slot(field@, use_bad_crc, s, c)
                    } else {
                        None
                    },
            decreases 8 - word_index,
        {
            if word_index == 0 && column < 2 {
                word_index = word_index + 1;
                continue;
            }
            let pair = if word_index == 0 {
                (column - 2) / 2
            } else {
                column / 2
            };
            let sample = bases[word_index] + group + 3 * pair;
            let channel = column % 2;
            proof {
                lemma_target_inverts(address as int, word_index as int);
            }
            let byte = block[1 + physical_word[word_index]];
            let level = expand_pcm_byte(byte);
            let ghost before = audio;
            audio[sample][channel] = Some(level);
            assert forall|s: int, c: int| 0 <= s < 525 && 0 <= c < 2 implies #[trigger] audio@[s]@[c]
                == if sample_address(s, c) < address || (sample_address(s, c) == address
                    && word_of_sample(s) < word_index + 1) {
                decoded_slot(field@, use_bad_crc, s, c)
            } else {
                None
            } by {
                lemma_slot_carried(s, c);
                if s != sample as int || c != channel as int {
                    assert(audio@[s]@[c] == before@[s]@[c]);
                }
            }
            word_index = word_index + 1;
        }
        assert forall|s: int, c: int| 0 <= s < 525 && 0 <= c < 2 implies #[trigger] audio@[s]@[c]
            == if sample_address(s, c) < address + 1 {
            decoded_slot(field@, use_bad_crc, s, c)
        } else {
            None
        } by {
            lemma_slot_carried(s, c);
        }
        address = address + 1;
    }
    assert forall|s: int, c: int| 0 <= s < 525 && 0 <= c < 2 implies {
        let a = sample_address(s, c);
        let byte = field@[13 * a + word_offset(word_of_sample(s))];
        &&& use_bad_crc ==> #[trigger] audio@[s]@[c] == Some(expanded(byte) as i16)
        &&& !use_bad_crc ==> (audio@[s]@[c] is Some <==> crc16(
            field@.subrange(13 * a, 13 * a + 11),
        ) as int == field@[13 * a + 11] as int + 256 * (field@[13 * a + 12] as int))
        &&& audio@[s]@[c] is Some ==> audio@[s]@[c] == Some(expanded(byte) as i16)
    } by {
        lemma_decoded_slot_law(field@, use_bad_crc, s, c);
    }
    audio
}

} // verus!
