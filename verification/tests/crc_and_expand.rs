use v8pcm::{crc16_video8, crc_ok, expand_pcm_byte};

#[test]
fn known_crc() {
    let data = [
        0x00, 0xf8, 0x00, 0x43, 0xb2, 0x32, 0xe4, 0xa8, 0x18, 0xbd, 0xfb,
    ];
    assert_eq!(crc16_video8(&data), 0x922d);
}

#[test]
fn quantizer_centres() {
    assert_eq!(expand_pcm_byte(16), 17);
    assert_eq!(expand_pcm_byte(40), 66);
    assert_eq!(expand_pcm_byte(104), 324);
    assert_eq!(expand_pcm_byte(128), -508);
}

#[test]
fn crc_of_nothing_is_the_preset() {
    assert_eq!(crc16_video8(&[]), 0xffff);
}

#[test]
fn crc_residue_of_sealed_data_is_zero() {
    let mut data = vec![0x00, 0xf8, 0x00, 0x43, 0xb2, 0x32, 0xe4, 0xa8, 0x18, 0xbd, 0xfb];
    let crc = crc16_video8(&data);
    data.push((crc & 0xff) as u8);
    data.push((crc >> 8) as u8);
    assert_eq!(crc16_video8(&data), 0);
    let mut other = vec![1, 2, 3, 250, 7];
    let crc = crc16_video8(&other);
    other.push((crc & 0xff) as u8);
    other.push((crc >> 8) as u8);
    assert_eq!(crc16_video8(&other), 0);
}

#[test]
fn crc_ok_accepts_sealed_block_and_rejects_corruption() {
    let mut block = [0x00, 0xf8, 0x00, 0x43, 0xb2, 0x32, 0xe4, 0xa8, 0x18, 0xbd, 0xfb, 0x2d, 0x92];
    assert!(crc_ok(&block));
    block[5] ^= 0x10;
    assert!(!crc_ok(&block));
    block[5] ^= 0x10;
    block[12] = 0x29;
    assert!(!crc_ok(&block));
}

#[test]
fn quantizer_linear_range_and_edges() {
    assert_eq!(expand_pcm_byte(0), 0);
    assert_eq!(expand_pcm_byte(15), 15);
    assert_eq!(expand_pcm_byte(255), -1);
    assert_eq!(expand_pcm_byte(240), -16);
    assert_eq!(expand_pcm_byte(239), -17);
    assert_eq!(expand_pcm_byte(39), 63);
    assert_eq!(expand_pcm_byte(103), 318);
    assert_eq!(expand_pcm_byte(127), 508);
}

#[test]
fn quantizer_is_increasing_and_bounded() {
    let mut previous = i16::MIN;
    for signed in -128i16..=127 {
        let level = expand_pcm_byte(signed as i8 as u8);
        assert!(level > previous);
        assert!((-508..=508).contains(&level));
        previous = level;
    }
}
