use vstd::prelude::*;

use crate::expand::{expanded, lemma_expanded_range};
use crate::field::FieldAudio;
use crate::{SAMPLES_PER_FIELD, WAV_RATE};

verus! {

/// Bytes of raw output per field: 525 sample times, two channels, two
/// bytes each.
pub const PCM_FIELD_BYTES: usize = 2100;

/// Bytes in a canonical WAV header.
pub const WAV_HEADER_BYTES: usize = 44;

/// The 16-bit output value of a 10-bit level: scaled by 64, saturating;
/// a missing sample is silence.
pub open spec fn pcm_value(sample: Option<i16>) -> int {
    let scaled = match sample {
        Some(v) => 64 * v,
        None => 0,
    };
    if scaled < -32768 {
        -32768
    } else if scaled > 32767 {
        32767
    } else {
        scaled
    }
}

/// Low byte of the two's-complement 16-bit pattern of `v`.
pub open spec fn le16_low(v: int) -> u8 {
    (((v + 65536) % 65536) % 256) as u8
}

/// High byte of the two's-complement 16-bit pattern of `v`.
pub open spec fn le16_high(v: int) -> u8 {
    (((v + 65536) % 65536) / 256) as u8
}

/// Byte `j` of the raw output of a field: sample times in order, left
/// then right, each a little-endian signed 16-bit value.
pub open spec fn pcm_byte(audio: FieldAudio, j: int) -> u8 {
    let value = pcm_value(audio@[j / 4]@[(j / 2) % 2]);
    if j % 2 == 0 {
        le16_low(value)
    } else {
        le16_high(value)
    }
}

/// The raw output of a field.
pub open spec fn pcm_bytes(audio: FieldAudio) -> Seq<u8> {
    Seq::new(2100, |j: int| pcm_byte(audio, j))
}

/// Decoded levels are scaled by exactly 64: the saturation never applies
/// to them.
pub proof fn lemma_pcm_exact_for_expanded(value: u8)
    ensures
        pcm_value(Some(expanded(value) as i16)) == 64 * expanded(value),
{
    lemma_expanded_range(value);
}

/// Reading the two output bytes of a sample back as a little-endian
/// signed 16-bit value gives its output value.
pub proof fn lemma_pcm_bytes_round_trip(audio: FieldAudio, s: int, c: int)
    requires
        0 <= s < 525,
        0 <= c < 2,
    ensures
        ({
            let bytes = pcm_bytes(audio);
            let unsigned = bytes[4 * s + 2 * c] as int + 256 * (bytes[4 * s + 2 * c + 1] as int);
            (if unsigned >= 32768 {
                unsigned - 65536
            } else {
                unsigned
            }) == pcm_value(audio@[s]@[c])
        }),
{
    let j = 4 * s + 2 * c;
    assert(j / 4 == s);
    assert((j / 2) % 2 == c);
    assert((j + 1) / 4 == s);
    assert(((j + 1) / 2) % 2 == c);
}

/// Appends the raw signed 16-bit little-endian stereo output of a field
/// to `out`.
pub fn write_pcm(audio: &FieldAudio, out: &mut Vec<u8>)
    ensures
        final(out)@ == old(out)@ + pcm_bytes(*audio),
{
    let ghost start = out@;
    let mut k: usize = 0;
    while k < SAMPLES_PER_FIELD * 2
        invariant
            k <= 1050,
            out@ =~= start + pcm_bytes(*audio).take(2 * k as int),
        decreases 1050 - k,
    {
        let frame = audio[k / 2];
        let sample = frame[k % 2];
        let level: i32 = match sample {
            Some(v) => v as i32,
            None => 0,
        };
        let scaled = level * 64;
        let pcm: i32 = if scaled < -32768 {
            -32768
        } else if scaled > 32767 {
            32767
        } else {
            scaled
        };
        let bits: i32 = (pcm + 65536) % 65536;
        let low = (bits % 256) as u8;
        let high = (bits / 256) as u8;
        assert(pcm == pcm_value(audio@[k as int / 2]@[k as int % 2]));
        assert(low == pcm_byte(*audio, 2 * k as int));
        assert(high == pcm_byte(*audio, 2 * k as int + 1));
        out.push(low);
        out.push(high);
        assert(pcm_bytes(*audio).take(2 * k + 2) =~= pcm_bytes(*audio).take(2 * k as int).push(
            low,
        ).push(high));
        k = k + 1;
    }
    assert(pcm_bytes(*audio).take(2100) =~= pcm_bytes(*audio));
}

/// The four little-endian bytes of `v`.
pub open spec fn le32(v: int) -> Seq<u8> {
    seq![
        (v % 256) as u8,
        ((v / 256) % 256) as u8,
        ((v / 65536) % 256) as u8,
        ((v / 16777216) % 256) as u8,
    ]
}

/// The two little-endian bytes of `v`.
pub open spec fn le16(v: int) -> Seq<u8> {
    seq![(v % 256) as u8, ((v / 256) % 256) as u8]
}

/// The canonical 44-byte header of a 16-bit stereo PCM WAV file at
/// 31,469 Hz holding `data_bytes` bytes of samples.
pub open spec fn wav_header_bytes(data_bytes: int) -> Seq<u8> {
    seq![0x52u8, 0x49, 0x46, 0x46] + le32(36 + data_bytes) + seq![0x57u8, 0x41, 0x56, 0x45]
        + seq![0x66u8, 0x6d, 0x74, 0x20] + le32(16) + le16(1) + le16(2) + le32(WAV_RATE as int)
        + le32(4 * WAV_RATE) + le16(4) + le16(16) + seq![0x64u8, 0x61, 0x74, 0x61] + le32(
        data_bytes,
    )
}

/// The value of the four bytes at `at`, read little-endian.
pub open spec fn read_le32(h: Seq<u8>, at: int) -> int {
    h[at] as int + 256 * (h[at + 1] as int) + 65536 * (h[at + 2] as int) + 16777216 * (h[at
        + 3] as int)
}

/// The value of the two bytes at `at`, read little-endian.
pub open spec fn read_le16(h: Seq<u8>, at: int) -> int {
    h[at] as int + 256 * (h[at + 1] as int)
}

proof fn lemma_le32_reads_back(v: int)
    requires
        0 <= v < 0x1_0000_0000,
    ensures
        read_le32(le32(v), 0) == v,
{
    let b0 = v % 256;
    let q0 = v / 256;
    let b1 = q0 % 256;
    let q1 = q0 / 256;
    let b2 = q1 % 256;
    let b3 = q1 / 256;
    assert(v / 65536 == q1);
    assert(v / 16777216 == b3);
    assert(b3 < 256);
    assert(b3 % 256 == b3);
}

/// Reading the header back: it starts "RIFF", the RIFF size is 36 plus the
/// data size, then "WAVE" and a 16-byte "fmt " chunk describing PCM with 2
/// channels at 31,469 Hz, 125,876 bytes per second, 4-byte frames of 16-bit
/// samples, then "data" and the data size itself.
pub proof fn lemma_wav_header_reads_back(data_bytes: int)
    requires
        0 <= data_bytes <= 0xffff_ffff - 36,
    ensures
        ({
            let h = wav_header_bytes(data_bytes);
            &&& h.len() == 44
            &&& h.subrange(0, 4) == seq![0x52u8, 0x49, 0x46, 0x46]
            &&& read_le32(h, 4) == 36 + data_bytes
            &&& h.subrange(8, 16) == seq![0x57u8, 0x41, 0x56, 0x45, 0x66, 0x6d, 0x74, 0x20]
            &&& read_le32(h, 16) == 16
            &&& read_le16(h, 20) == 1
            &&& read_le16(h, 22) == 2
            &&& read_le32(h, 24) == 31469
            &&& read_le32(h, 28) == 125876
            &&& read_le16(h, 32) == 4
            &&& read_le16(h, 34) == 16
            &&& h.subrange(36, 40) == seq![0x64u8, 0x61, 0x74, 0x61]
            &&& read_le32(h, 40) == data_bytes
        }),
{
    let h = wav_header_bytes(data_bytes);
    lemma_le32_reads_back(36 + data_bytes);
    lemma_le32_reads_back(data_bytes);
    lemma_le32_reads_back(16);
    lemma_le32_reads_back(31469);
    lemma_le32_reads_back(125876);
    assert(h.subrange(0, 4) =~= seq![0x52u8, 0x49, 0x46, 0x46]);
    assert(h.subrange(8, 16) =~= seq![0x57u8, 0x41, 0x56, 0x45, 0x66, 0x6d, 0x74, 0x20]);
    assert(h.subrange(36, 40) =~= seq![0x64u8, 0x61, 0x74, 0x61]);
}

/// Writes `v` little-endian into `h[at..at + 4]`.
fn put_le32(h: &mut [u8; 44], at: usize, v: u32)
    requires
        at + 4 <= 44,
    ensures
        final(h)@ == old(h)@.take(at as int) + le32(v as int) + old(h)@.skip(at + 4),
{
    h[at] = (v % 256) as u8;
    h[at + 1] = (v / 256 % 256) as u8;
    h[at + 2] = (v / 65536 % 256) as u8;
    h[at + 3] = (v / 16777216 % 256) as u8;
    assert(h@ =~= old(h)@.take(at as int) + le32(v as int) + old(h)@.skip(at + 4));
}

/// Writes `v` little-endian into `h[at..at + 2]`.
fn put_le16(h: &mut [u8; 44], at: usize, v: u16)
    requires
        at + 2 <= 44,
    ensures
        final(h)@ == old(h)@.take(at as int) + le16(v as int) + old(h)@.skip(at + 2),
{
    h[at] = (v % 256) as u8;
    h[at + 1] = (v / 256 % 256) as u8;
    assert(h@ =~= old(h)@.take(at as int) + le16(v as int) + old(h)@.skip(at + 2));
}

/// Writes the four ASCII bytes `tag` into `h[at..at + 4]`.
fn put_tag(h: &mut [u8; 44], at: usize, tag: [u8; 4])
    requires
        at + 4 <= 44,
    ensures
        final(h)@ == old(h)@.take(at as int) + tag@ + old(h)@.skip(at + 4),
{
    h[at] = tag[0];
    h[at + 1] = tag[1];
    h[at + 2] = tag[2];
    h[at + 3] = tag[3];
    assert(h@ =~= old(h)@.take(at as int) + tag@ + old(h)@.skip(at + 4));
}

/// Builds the WAV header for `data_bytes` bytes of 16-bit stereo samples
/// at 31,469 Hz.
pub fn wav_header(data_bytes: u32) -> (header: [u8; WAV_HEADER_BYTES])
    requires
        data_bytes <= u32::MAX - 36,
    ensures
        header@ == wav_header_bytes(data_bytes as int),
        read_le32(header@, 4) == 36 + data_bytes,
        read_le32(header@, 40) == data_bytes,
        read_le32(header@, 24) == WAV_RATE,
        read_le16(header@, 22) == 2,
        read_le16(header@, 34) == 16,
{
    proof {
        lemma_wav_header_reads_back(data_bytes as int);
    }
    let mut h: [u8; WAV_HEADER_BYTES] = [0u8; WAV_HEADER_BYTES];
    put_tag(&mut h, 0, [0x52, 0x49, 0x46, 0x46]);
    put_le32(&mut h, 4, 36 + data_bytes);
    put_tag(&mut h, 8, [0x57, 0x41, 0x56, 0x45]);
    put_tag(&mut h, 12, [0x66, 0x6d, 0x74, 0x20]);
    put_le32(&mut h, 16, 16);
    put_le16(&mut h, 20, 1);
    put_le16(&mut h, 22, 2);
    put_le32(&mut h, 24, WAV_RATE);
    put_le32(&mut h, 28, WAV_RATE * 4);
    put_le16(&mut h, 32, 4);
    put_le16(&mut h, 34, 16);
    put_tag(&mut h, 36, [0x64, 0x61, 0x74, 0x61]);
    put_le32(&mut h, 40, data_bytes);
    assert(h@ =~= wav_header_bytes(data_bytes as int));
    h
}

} // verus!
