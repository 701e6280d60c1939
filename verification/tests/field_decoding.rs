use v8pcm::{conceal_field, crc16_video8, decode_field, expand_pcm_byte, write_pcm};
use v8pcm::conceal::{conceal_plan, Fill};
use v8pcm::field::FieldAudio;
use v8pcm::{BLOCK_BYTES, FIELD_BYTES, SAMPLES_PER_FIELD};

fn seal(block: &mut [u8]) {
    let crc = crc16_video8(&block[..11]);
    block[11] = (crc & 0xff) as u8;
    block[12] = (crc >> 8) as u8;
}

/// A field whose data word `w` of block `a` holds `(a * 8 + w) % 251`.
fn sample_field() -> [u8; FIELD_BYTES] {
    let mut field = [0u8; FIELD_BYTES];
    let offsets = [2usize, 3, 4, 5, 7, 8, 9, 10];
    for a in 0..132 {
        let block = &mut field[a * BLOCK_BYTES..(a + 1) * BLOCK_BYTES];
        block[0] = a as u8;
        block[1] = 0x55;
        block[6] = 0xaa;
        for w in 0..8 {
            block[offsets[w]] = ((a * 8 + w) % 251) as u8;
        }
        seal(block);
    }
    field
}

#[test]
fn decode_places_every_word_once() {
    let field = sample_field();
    let audio = decode_field(&field, false);
    let bases = [0usize, 63, 129, 195, 261, 327, 393, 459];
    let offsets = [2usize, 3, 4, 5, 7, 8, 9, 10];
    let mut seen = [[0u32; 2]; SAMPLES_PER_FIELD];
    for a in 0..132usize {
        let group = a / 44;
        let column = a % 44;
        for w in 0..8usize {
            if w == 0 && column < 2 {
                continue;
            }
            let pair = if w == 0 { (column - 2) / 2 } else { column / 2 };
            let s = bases[w] + group + 3 * pair;
            let c = column & 1;
            seen[s][c] += 1;
            let byte = field[a * BLOCK_BYTES + offsets[w]];
            assert_eq!(audio[s][c], Some(expand_pcm_byte(byte)));
        }
    }
    for s in 0..SAMPLES_PER_FIELD {
        assert_eq!(seen[s], [1, 1]);
    }
}

#[test]
fn decode_known_positions() {
    let field = sample_field();
    let audio = decode_field(&field, false);
    // Sample 0, left: block 2, word 0.
    assert_eq!(audio[0][0], Some(expand_pcm_byte(16)));
    // Sample 63, right: block 1, word 1.
    assert_eq!(audio[63][1], Some(expand_pcm_byte(9)));
    // Sample 524, right: block 131, word 7.
    assert_eq!(audio[524][1], Some(expand_pcm_byte(((131 * 8 + 7) % 251) as u8)));
}

#[test]
fn bad_block_empties_only_its_samples() {
    let mut field = sample_field();
    field[5 * BLOCK_BYTES + 3] ^= 0x01;
    let audio = decode_field(&field, false);
    let missing: usize = audio.iter().map(|f| f.iter().filter(|x| x.is_none()).count()).sum();
    assert_eq!(missing, 8);
    // Block 5: column 5, right channel; word 0 gives sample 3, word 1
    // sample 69.
    assert_eq!(audio[3][1], None);
    assert_eq!(audio[69][1], None);
    assert_eq!(audio[3][0], decode_field(&sample_field(), false)[3][0]);
    let with_bad = decode_field(&field, true);
    assert!(with_bad.iter().all(|f| f.iter().all(|x| x.is_some())));
    assert_eq!(with_bad[69][1], Some(expand_pcm_byte(field[5 * BLOCK_BYTES + 3])));
}

#[test]
fn decode_all_bad_without_override_is_empty() {
    let field = [0u8; FIELD_BYTES];
    let audio = decode_field(&field, false);
    assert!(audio.iter().all(|f| f.iter().all(|x| x.is_none())));
    let forced = decode_field(&field, true);
    assert!(forced.iter().all(|f| *f == [Some(0), Some(0)]));
}

fn linear(a: i16, b: i16, k: usize, n: usize) -> i16 {
    let a = a as f64;
    let b = b as f64;
    (a + (b - a) * (k as f64 / n as f64)) as i16
}

#[test]
fn conceal_plan_cases() {
    let mut audio: FieldAudio = [[None; 2]; SAMPLES_PER_FIELD];
    audio[10][0] = Some(100);
    audio[20][0] = Some(200);
    let plan = conceal_plan(&audio, 0);
    assert_eq!(plan.missing, 523);
    assert_eq!(plan.fills[0], Fill::Copy(10));
    assert_eq!(plan.fills[10], Fill::Keep);
    assert_eq!(plan.fills[15], Fill::Between(10, 20));
    assert_eq!(plan.fills[524], Fill::Copy(20));
    let empty = conceal_plan(&audio, 1);
    assert_eq!(empty.missing, 525);
    assert!(empty.fills.iter().all(|f| *f == Fill::Zero));
}

#[test]
fn conceal_fills_every_sample() {
    let mut audio: FieldAudio = [[None; 2]; SAMPLES_PER_FIELD];
    audio[10][0] = Some(100);
    audio[20][0] = Some(200);
    audio[100][1] = Some(-7);
    let missing = conceal_field(&mut audio, linear);
    assert_eq!(missing, 523 + 524);
    assert_eq!(audio[0][0], Some(100));
    assert_eq!(audio[15][0], Some(150));
    assert_eq!(audio[13][0], Some(130));
    assert_eq!(audio[524][0], Some(200));
    assert!(audio.iter().all(|f| f[1] == Some(-7)));
}

#[test]
fn conceal_silences_empty_field_and_keeps_full_field() {
    let mut audio: FieldAudio = [[None; 2]; SAMPLES_PER_FIELD];
    assert_eq!(conceal_field(&mut audio, linear), 1050);
    assert!(audio.iter().all(|f| *f == [Some(0), Some(0)]));
    let mut full = decode_field(&sample_field(), false);
    let copy = full;
    assert_eq!(conceal_field(&mut full, linear), 0);
    assert_eq!(full, copy);
}

#[test]
fn conceal_interpolation_truncates_like_float() {
    let mut audio: FieldAudio = [[Some(0); 2]; SAMPLES_PER_FIELD];
    for i in 1..49 {
        audio[i][0] = None;
    }
    audio[49][0] = Some(49);
    conceal_field(&mut audio, linear);
    // 0 + 49 * (1.0 / 49.0) is just below 1.0 in binary floating point.
    assert_eq!(audio[1][0], Some(0));
    assert_eq!(audio[2][0], Some(1));
    assert_eq!(audio[3][0], Some(3));
}

#[test]
fn pcm_output_scales_and_saturates() {
    let mut audio: FieldAudio = [[None; 2]; SAMPLES_PER_FIELD];
    audio[0][0] = Some(1);
    audio[0][1] = Some(-1);
    audio[1][0] = Some(600);
    audio[1][1] = Some(-600);
    audio[2][0] = Some(508);
    let mut out = vec![9u8];
    write_pcm(&audio, &mut out);
    assert_eq!(out.len(), 1 + 2100);
    assert_eq!(out[0], 9);
    assert_eq!(&out[1..5], &[64, 0, 0xc0, 0xff]);
    assert_eq!(&out[5..9], &[0xff, 0x7f, 0x00, 0x80]);
    assert_eq!(&out[9..11], &(508i16 * 64).to_le_bytes());
    assert!(out[13..].iter().all(|&b| b == 0));
}
