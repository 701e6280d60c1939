use v8pcm::crc16_video8;
use v8pcm::demod::{
    countdown_step, pack_block, pack_byte, scan_bits, should_check_lock, trial_offset, PhaseStep,
    PHASES_AFTER_LOCK,
};
use v8pcm::output::wav_header;
use v8pcm::stream::{fill_step, CrcStats, FillStep};

#[test]
fn fill_steps() {
    assert_eq!(fill_step(0, 13, 0), FillStep::EndOfInput);
    assert_eq!(fill_step(5, 13, 0), FillStep::Truncated);
    assert_eq!(fill_step(5, 13, 8), FillStep::Progress(13));
    assert_eq!(fill_step(0, 13, 4), FillStep::Progress(4));
}

fn sealed_block(address: u8, fill: u8) -> [u8; 13] {
    let mut block = [fill; 13];
    block[0] = address;
    let crc = crc16_video8(&block[..11]);
    block[11] = (crc & 0xff) as u8;
    block[12] = (crc >> 8) as u8;
    block
}

#[test]
fn crc_stats_count_blocks() {
    let mut stats = CrcStats::new();
    let first = stats.record(&sealed_block(0, 3));
    assert!(first.ok);
    assert_eq!(first.expected, 0);
    assert_eq!(first.recorded, first.calculated);
    let mut bad = sealed_block(1, 4);
    bad[4] ^= 0x80;
    let second = stats.record(&bad);
    assert!(!second.ok);
    assert_eq!(second.expected, 1);
    let third = stats.record(&sealed_block(7, 1));
    assert!(third.ok);
    assert_eq!(stats.total, 3);
    assert_eq!(stats.good, 2);
    assert_eq!(stats.crc_bad(), 1);
    assert_eq!(stats.address_errors, 1);
    assert!(!stats.all_ok());
}

#[test]
fn crc_stats_expected_address_wraps_each_field() {
    let mut stats = CrcStats::new();
    for i in 0..133usize {
        let report = stats.record(&sealed_block((i % 132) as u8, 0));
        assert_eq!(report.expected as usize, i % 132);
    }
    assert_eq!(stats.address_errors, 0);
    assert!(stats.all_ok());
}

#[test]
fn packing_is_lsb_first() {
    let bits = [1u8, 0, 1, 1, 0, 0, 0, 1, 1];
    assert_eq!(pack_byte(&bits, 0), 0b1000_1101);
    assert_eq!(pack_byte(&bits, 1), 0b1100_0110);
}

fn bits_of(bytes: &[u8]) -> Vec<u8> {
    let mut bits = Vec::new();
    for &b in bytes {
        for i in 0..8 {
            bits.push((b >> i) & 1);
        }
    }
    bits
}

#[test]
fn pack_block_inverts_bit_expansion() {
    let block = sealed_block(42, 0x5a);
    let bits = bits_of(&block);
    assert_eq!(pack_block(&bits, 0), block);
}

#[test]
fn scan_finds_sealed_blocks() {
    let mut bits = vec![0u8, 1, 1];
    bits.extend(bits_of(&sealed_block(5, 0x21)));
    bits.extend([1u8, 0, 1]);
    bits.extend(bits_of(&sealed_block(131, 0x7e)));
    let found = scan_bits(&bits);
    let starts: Vec<usize> = found.iter().map(|b| b.start).collect();
    assert!(starts.contains(&3));
    assert!(starts.contains(&110));
    assert!(starts.windows(2).all(|w| w[0] < w[1]));
    for block in &found {
        assert_eq!(block.raw[0], block.address);
        assert!(block.address < 132);
        assert!(v8pcm::crc_ok(&block.raw));
        assert_eq!(pack_block(&bits, block.start), block.raw);
    }
    let at3 = found.iter().find(|b| b.start == 3).unwrap();
    assert_eq!(at3.raw, sealed_block(5, 0x21));
}

#[test]
fn scan_rejects_bad_addresses_and_short_input() {
    assert!(scan_bits(&[0u8; 103]).is_empty());
    let bits = bits_of(&sealed_block(200, 0x11));
    assert!(scan_bits(&bits).is_empty());
}

#[test]
fn trial_schedule() {
    let offsets: Vec<i32> = (0..49).map(trial_offset).collect();
    assert_eq!(&offsets[..5], &[0, 1, -1, 2, -2]);
    assert_eq!(offsets[47], 24);
    assert_eq!(offsets[48], -24);
    let mut sorted = offsets.clone();
    sorted.sort();
    assert_eq!(sorted, (-24..=24).collect::<Vec<i32>>());
}

#[test]
fn lock_countdown() {
    assert_eq!(countdown_step(None), PhaseStep::Next(None));
    assert_eq!(countdown_step(Some(PHASES_AFTER_LOCK)), PhaseStep::Next(Some(1)));
    assert_eq!(countdown_step(Some(1)), PhaseStep::Stop);
    assert!(should_check_lock(None, true, 1));
    assert!(!should_check_lock(Some(2), true, 1));
    assert!(!should_check_lock(None, false, 1));
    assert!(!should_check_lock(None, true, 4));
}

#[test]
fn wav_header_layout() {
    let h = wav_header(2100);
    assert_eq!(&h[0..4], b"RIFF");
    assert_eq!(&h[4..8], &(36u32 + 2100).to_le_bytes());
    assert_eq!(&h[8..16], b"WAVEfmt ");
    assert_eq!(&h[16..20], &16u32.to_le_bytes());
    assert_eq!(&h[20..24], &[1, 0, 2, 0]);
    assert_eq!(&h[24..28], &31469u32.to_le_bytes());
    assert_eq!(&h[28..32], &(31469u32 * 4).to_le_bytes());
    assert_eq!(&h[32..36], &[4, 0, 16, 0]);
    assert_eq!(&h[36..40], b"data");
    assert_eq!(&h[40..44], &2100u32.to_le_bytes());
}
