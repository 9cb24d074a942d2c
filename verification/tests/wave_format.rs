use floaty::wave_format::{AudioFormat, WAVE_FORMAT_EXTENSIBLE, WAVE_FORMAT_IEEE_FLOAT, WAVE_FORMAT_PCM};

const FLOAT_GUID: [u8; 16] = [
    0x03, 0x00, 0x00, 0x00, 0x00, 0x00, 0x10, 0x00, 0x80, 0x00, 0x00, 0xAA, 0x00, 0x38, 0x9B, 0x71,
];
const PCM_GUID: [u8; 16] = [
    0x01, 0x00, 0x00, 0x00, 0x00, 0x00, 0x10, 0x00, 0x80, 0x00, 0x00, 0xAA, 0x00, 0x38, 0x9B, 0x71,
];

#[test]
fn the_usual_shared_mode_mix_is_extensible_float() {
    let f = AudioFormat::parse(WAVE_FORMAT_EXTENSIBLE, 2, 48000, 32, &FLOAT_GUID).unwrap();
    assert_eq!(f, AudioFormat { channels: 2, rate: 48000, bits: 32, is_float: true });
    assert_eq!(f.bytes_for(480), 480 * 2 * 4);
}

#[test]
fn extensible_integer_pcm_is_read_as_integers() {
    let f = AudioFormat::parse(WAVE_FORMAT_EXTENSIBLE, 6, 44100, 16, &PCM_GUID).unwrap();
    assert!(!f.is_float);
    assert_eq!(f.bytes_for(10), 10 * 6 * 2);
}

#[test]
fn plain_tags() {
    assert_eq!(
        AudioFormat::parse(WAVE_FORMAT_IEEE_FLOAT, 1, 8000, 32, &[]),
        Some(AudioFormat { channels: 1, rate: 8000, bits: 32, is_float: true })
    );
    assert_eq!(
        AudioFormat::parse(WAVE_FORMAT_PCM, 2, 44100, 16, &[]),
        Some(AudioFormat { channels: 2, rate: 44100, bits: 16, is_float: false })
    );
}

#[test]
fn formats_the_analysis_cannot_read_are_refused() {
    // an unknown tag
    assert_eq!(AudioFormat::parse(2, 2, 44100, 16, &[]), None);
    // no channels, no rate
    assert_eq!(AudioFormat::parse(WAVE_FORMAT_PCM, 0, 44100, 16, &[]), None);
    assert_eq!(AudioFormat::parse(WAVE_FORMAT_PCM, 2, 0, 16, &[]), None);
    // 24-bit integers are not decoded
    assert_eq!(AudioFormat::parse(WAVE_FORMAT_PCM, 2, 44100, 24, &[]), None);
    assert_eq!(AudioFormat::parse(WAVE_FORMAT_EXTENSIBLE, 2, 44100, 24, &PCM_GUID), None);
    // a truncated sub-format is not float
    assert_eq!(AudioFormat::parse(WAVE_FORMAT_EXTENSIBLE, 2, 44100, 24, &FLOAT_GUID[..8]), None);
}
