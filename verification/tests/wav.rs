//! WAV decoding.

use astraglyph::audio::wav::{
    decode, AudioBuffer, Sample, FORMAT_EXTENSIBLE, FORMAT_FLOAT, FORMAT_PCM,
};

/// The level that a sample stands for.
fn value(sample: Sample) -> f32 {
    match sample {
        Sample::Fraction { value, scale } => value as f32 / scale as f32,
        Sample::Single(bits) => f32::from_bits(bits),
        Sample::Double(bits) => f64::from_bits(bits) as f32,
    }
}

fn level(buf: &AudioBuffer, i: usize) -> f32 {
    value(buf.samples[i])
}

fn level_at(buf: &AudioBuffer, frame: usize, channel: u16) -> f32 {
    value(buf.sample(frame, channel))
}

/// The average over a frame's channels.
fn mono(buf: &AudioBuffer, frame: usize) -> f32 {
    let sum: f32 = (0..buf.channels).map(|c| level_at(buf, frame, c)).sum();
    sum / buf.channels as f32
}

fn duration(buf: &AudioBuffer) -> f32 {
    buf.frame_count() as f32 / buf.sample_rate as f32
}

fn build_wav(
    tag: u16,
    channels: u16,
    sample_rate: u32,
    bits: u16,
    sample_bytes: &[u8],
) -> Vec<u8> {
    let mut out = Vec::new();
    let fmt_size = 16u32;
    let data_size = sample_bytes.len() as u32;
    out.extend_from_slice(b"RIFF");
    out.extend_from_slice(&(4 + 8 + fmt_size + 8 + data_size).to_le_bytes());
    out.extend_from_slice(b"WAVE");

    out.extend_from_slice(b"fmt ");
    out.extend_from_slice(&fmt_size.to_le_bytes());
    out.extend_from_slice(&tag.to_le_bytes());
    out.extend_from_slice(&channels.to_le_bytes());
    out.extend_from_slice(&sample_rate.to_le_bytes());
    let block_align = channels * bits / 8;
    out.extend_from_slice(&(sample_rate * block_align as u32).to_le_bytes());
    out.extend_from_slice(&block_align.to_le_bytes());
    out.extend_from_slice(&bits.to_le_bytes());

    out.extend_from_slice(b"data");
    out.extend_from_slice(&data_size.to_le_bytes());
    out.extend_from_slice(sample_bytes);
    out
}

fn i16_bytes(values: &[i16]) -> Vec<u8> {
    values.iter().flat_map(|v| v.to_le_bytes()).collect()
}

#[test]
fn decodes_16_bit_mono() {
    let wav = build_wav(FORMAT_PCM, 1, 44100, 16, &i16_bytes(&[0, 16384, -16384, 32767]));
    let buf = decode(&wav).expect("should decode");
    assert_eq!(buf.channels, 1);
    assert_eq!(buf.sample_rate, 44100);
    assert_eq!(buf.frame_count(), 4);
    assert!((level(&buf, 0) - 0.0).abs() < 1e-6);
    assert!((level(&buf, 1) - 0.5).abs() < 1e-4, "{}", level(&buf, 1));
    assert!((level(&buf, 2) + 0.5).abs() < 1e-4, "{}", level(&buf, 2));
}

/// 16-bit PCM is asymmetric: -32768..32767. Dividing by 32767 lets the most
/// negative sample come out below -1.0 and clip on playback.
#[test]
fn the_most_negative_16_bit_sample_does_not_exceed_minus_one() {
    let wav = build_wav(FORMAT_PCM, 1, 8000, 16, &i16_bytes(&[i16::MIN, i16::MAX]));
    let buf = decode(&wav).unwrap();
    assert!(
        level(&buf, 0) >= -1.0,
        "i16::MIN normalized to {} which is below -1",
        level(&buf, 0)
    );
    assert!(level(&buf, 1) <= 1.0);
}

/// 8-bit WAV is the one integer width that is *unsigned*. Reading it as signed
/// inverts every sample and turns the file into a buzz.
#[test]
fn eight_bit_pcm_is_unsigned_and_centred_on_128() {
    let wav = build_wav(FORMAT_PCM, 1, 8000, 8, &[128, 255, 0, 192]);
    let buf = decode(&wav).unwrap();
    assert!(level(&buf, 0).abs() < 1e-6, "128 is silence, got {}", level(&buf, 0));
    assert!(level(&buf, 1) > 0.9, "255 is near +1, got {}", level(&buf, 1));
    assert!(level(&buf, 2) < -0.9, "0 is -1, got {}", level(&buf, 2));
    assert!(level(&buf, 3) > 0.4, "192 is +0.5, got {}", level(&buf, 3));
}

/// 24-bit samples must be sign-extended. Reading them as unsigned makes every
/// negative sample a large positive one.
#[test]
fn twenty_four_bit_samples_are_sign_extended() {
    // -1 as 24-bit two's complement is 0xFFFFFF, little-endian FF FF FF.
    // +0x400000 is a quarter of full scale.
    let bytes = vec![0xFF, 0xFF, 0xFF, 0x00, 0x00, 0x40];
    let wav = build_wav(FORMAT_PCM, 1, 48000, 24, &bytes);
    let buf = decode(&wav).unwrap();
    assert!(
        level(&buf, 0) < 0.0 && level(&buf, 0) > -1e-5,
        "0xFFFFFF should be a tiny negative value, got {}",
        level(&buf, 0)
    );
    assert!(
        (level(&buf, 1) - 0.5).abs() < 1e-4,
        "0x400000 should be 0.5, got {}",
        level(&buf, 1)
    );
}

#[test]
fn decodes_32_bit_float() {
    let bytes: Vec<u8> = [0.0f32, 0.75, -0.75]
        .iter()
        .flat_map(|v| v.to_le_bytes())
        .collect();
    let wav = build_wav(FORMAT_FLOAT, 1, 48000, 32, &bytes);
    let buf = decode(&wav).unwrap();
    assert!((level(&buf, 1) - 0.75).abs() < 1e-6);
    assert!((level(&buf, 2) + 0.75).abs() < 1e-6);
}

/// A NaN in a float WAV would propagate through the mix and silence
/// everything downstream of it.
#[test]
fn non_finite_float_samples_become_silence() {
    let bytes: Vec<u8> = [f32::NAN, f32::INFINITY, 0.5]
        .iter()
        .flat_map(|v| v.to_le_bytes())
        .collect();
    let wav = build_wav(FORMAT_FLOAT, 1, 48000, 32, &bytes);
    let buf = decode(&wav).unwrap();
    assert_eq!(level(&buf, 0), 0.0);
    assert_eq!(level(&buf, 1), 0.0);
    assert!((level(&buf, 2) - 0.5).abs() < 1e-6);
}

#[test]
fn stereo_frames_interleave_and_count_correctly() {
    // Two frames of (left, right).
    let wav = build_wav(FORMAT_PCM, 2, 44100, 16, &i16_bytes(&[16384, -16384, 0, 32767]));
    let buf = decode(&wav).unwrap();
    assert_eq!(buf.channels, 2);
    assert_eq!(buf.frame_count(), 2);
    assert!((level_at(&buf, 0, 0) - 0.5).abs() < 1e-4);
    assert!((level_at(&buf, 0, 1) + 0.5).abs() < 1e-4);
    // Averaging, not summing: a hard-panned frame must not be louder than a
    // centred one.
    assert!(mono(&buf, 0).abs() < 1e-4, "L and R cancel: {}", mono(&buf, 0));
}

/// Chunks are word-aligned, and an odd-sized chunk is followed by a pad byte
/// that the size field does not count. Missing it shifts every later chunk by
/// one and turns the rest of the file into garbage.
#[test]
fn an_odd_sized_chunk_before_data_is_padded_correctly() {
    let mut wav = Vec::new();
    wav.extend_from_slice(b"RIFF");
    wav.extend_from_slice(&0u32.to_le_bytes()); // deliberately wrong, ignored
    wav.extend_from_slice(b"WAVE");
    // An odd-length metadata chunk plus its pad byte.
    wav.extend_from_slice(b"LIST");
    wav.extend_from_slice(&3u32.to_le_bytes());
    wav.extend_from_slice(&[1, 2, 3]);
    wav.push(0); // pad
    // fmt
    wav.extend_from_slice(b"fmt ");
    wav.extend_from_slice(&16u32.to_le_bytes());
    wav.extend_from_slice(&FORMAT_PCM.to_le_bytes());
    wav.extend_from_slice(&1u16.to_le_bytes());
    wav.extend_from_slice(&8000u32.to_le_bytes());
    wav.extend_from_slice(&16000u32.to_le_bytes());
    wav.extend_from_slice(&2u16.to_le_bytes());
    wav.extend_from_slice(&16u16.to_le_bytes());
    // data
    wav.extend_from_slice(b"data");
    wav.extend_from_slice(&4u32.to_le_bytes());
    wav.extend_from_slice(&i16_bytes(&[16384, -16384]));

    let buf = decode(&wav).expect("padding must be handled");
    assert_eq!(buf.frame_count(), 2);
    assert!((level(&buf, 0) - 0.5).abs() < 1e-4);
}

/// `WAVE_FORMAT_EXTENSIBLE` is what tools emit by default above 16 bits.
/// Rejecting it would refuse most 24-bit files.
#[test]
fn extensible_format_resolves_to_its_subformat() {
    let mut wav = Vec::new();
    wav.extend_from_slice(b"RIFF");
    wav.extend_from_slice(&0u32.to_le_bytes());
    wav.extend_from_slice(b"WAVE");
    wav.extend_from_slice(b"fmt ");
    wav.extend_from_slice(&40u32.to_le_bytes());
    wav.extend_from_slice(&FORMAT_EXTENSIBLE.to_le_bytes());
    wav.extend_from_slice(&1u16.to_le_bytes());
    wav.extend_from_slice(&48000u32.to_le_bytes());
    wav.extend_from_slice(&96000u32.to_le_bytes());
    wav.extend_from_slice(&2u16.to_le_bytes());
    wav.extend_from_slice(&16u16.to_le_bytes());
    // Extension: size, valid bits, channel mask, then the SubFormat GUID
    // whose first two bytes carry the real tag.
    wav.extend_from_slice(&22u16.to_le_bytes());
    wav.extend_from_slice(&16u16.to_le_bytes());
    wav.extend_from_slice(&0x3u32.to_le_bytes());
    wav.extend_from_slice(&FORMAT_PCM.to_le_bytes());
    wav.extend_from_slice(&[0u8; 14]); // rest of the GUID
    wav.extend_from_slice(b"data");
    wav.extend_from_slice(&2u32.to_le_bytes());
    wav.extend_from_slice(&i16_bytes(&[16384]));

    let buf = decode(&wav).expect("extensible PCM must decode");
    assert_eq!(buf.sample_rate, 48000);
    assert!((level(&buf, 0) - 0.5).abs() < 1e-4);
}

/// A compressed file must say so rather than decode as static.
#[test]
fn a_compressed_format_is_rejected_with_its_tag() {
    // 0x0011 is IMA ADPCM.
    let wav = build_wav(0x0011, 1, 22050, 4, &[0, 1, 2, 3]);
    let e = decode(&wav).expect_err("ADPCM must be rejected");
    let message = e.message();
    assert!(
        message.contains("0x0011"),
        "the error should name the format tag: {message}"
    );
}

#[test]
fn a_truncated_file_is_an_error_not_a_panic() {
    let full = build_wav(FORMAT_PCM, 1, 44100, 16, &i16_bytes(&[1, 2, 3, 4]));
    // Every prefix must either decode or error — never panic.
    for len in 0..full.len() {
        let _ = decode(&full[..len]);
    }
    // A file cut inside the header must be rejected outright.
    assert!(decode(&full[..8]).is_err());
}

#[test]
fn a_non_riff_file_is_rejected() {
    assert!(decode(b"not a wav file at all").is_err());
    // Right magic, wrong form type.
    let mut fake = Vec::new();
    fake.extend_from_slice(b"RIFF");
    fake.extend_from_slice(&4u32.to_le_bytes());
    fake.extend_from_slice(b"AVI ");
    assert!(decode(&fake).is_err());
}

#[test]
fn a_missing_data_chunk_is_an_error() {
    let mut wav = Vec::new();
    wav.extend_from_slice(b"RIFF");
    wav.extend_from_slice(&0u32.to_le_bytes());
    wav.extend_from_slice(b"WAVE");
    wav.extend_from_slice(b"fmt ");
    wav.extend_from_slice(&16u32.to_le_bytes());
    wav.extend_from_slice(&FORMAT_PCM.to_le_bytes());
    wav.extend_from_slice(&1u16.to_le_bytes());
    wav.extend_from_slice(&8000u32.to_le_bytes());
    wav.extend_from_slice(&16000u32.to_le_bytes());
    wav.extend_from_slice(&2u16.to_le_bytes());
    wav.extend_from_slice(&16u16.to_le_bytes());
    assert!(decode(&wav).is_err());
}

#[test]
fn zero_channels_or_sample_rate_is_rejected() {
    let wav = build_wav(FORMAT_PCM, 0, 44100, 16, &i16_bytes(&[1, 2]));
    assert!(decode(&wav).is_err(), "0 channels must be an error");
    let wav = build_wav(FORMAT_PCM, 1, 0, 16, &i16_bytes(&[1, 2]));
    assert!(decode(&wav).is_err(), "a 0 sample rate must be an error");
}

/// A chunk header claiming more bytes than the file holds is a truncated file.
/// The audio up to that point is still usable, which beats refusing a file a
/// player would happily play.
#[test]
fn an_oversized_data_chunk_is_clamped_to_what_exists() {
    let mut wav = build_wav(FORMAT_PCM, 1, 8000, 16, &i16_bytes(&[16384, -16384]));
    // Rewrite the data chunk's size to claim far more than is present.
    let data_pos = wav.len() - 4 - 4;
    wav[data_pos..data_pos + 4].copy_from_slice(&0xFFFF_FFFFu32.to_le_bytes());
    let buf = decode(&wav).expect("a truncated data chunk should still decode");
    assert_eq!(buf.frame_count(), 2);
}

#[test]
fn duration_follows_the_frame_count_and_rate() {
    let wav = build_wav(FORMAT_PCM, 2, 100, 16, &i16_bytes(&[0; 200]));
    let buf = decode(&wav).unwrap();
    assert_eq!(buf.frame_count(), 100);
    assert!((duration(&buf) - 1.0).abs() < 1e-6, "{}", duration(&buf));
}

#[test]
fn out_of_range_reads_are_silence_not_panics() {
    let buf = AudioBuffer::empty(2, 44100);
    assert_eq!(level_at(&buf, 0, 0), 0.0);
    assert_eq!(level_at(&buf, 1000, 1), 0.0);
    assert_eq!(level_at(&buf, 0, 99), 0.0);
    assert_eq!(mono(&buf, 0), 0.0);
    assert_eq!(duration(&buf), 0.0);
}

/// Float samples beyond full scale come out at full scale, with their sign.
#[test]
fn float_samples_are_normalized() {
    let bytes: Vec<u8> =
        [1.0f32, 1.5, -1.5, -1.0, f32::MAX, -f32::MAX, 0.999, -0.0, f32::NEG_INFINITY]
            .iter()
            .flat_map(|v| v.to_le_bytes())
            .collect();
    let buf = decode(&build_wav(FORMAT_FLOAT, 1, 48000, 32, &bytes)).unwrap();
    let levels: Vec<f32> = (0..buf.frame_count()).map(|i| level(&buf, i)).collect();
    assert_eq!(levels, [1.0, 1.0, -1.0, -1.0, 1.0, -1.0, 0.999, -0.0, 0.0]);
    assert_eq!(buf.samples[1], Sample::Single(0x3F80_0000));
    assert_eq!(buf.samples[2], Sample::Single(0xBF80_0000));

    let bytes: Vec<u8> = [1.0f64, 1.0 + f64::EPSILON, -2.0, 0.25, 1e300, f64::NAN]
        .iter()
        .flat_map(|v| v.to_le_bytes())
        .collect();
    let buf = decode(&build_wav(FORMAT_FLOAT, 1, 48000, 64, &bytes)).unwrap();
    let levels: Vec<f32> = (0..buf.frame_count()).map(|i| level(&buf, i)).collect();
    assert_eq!(levels, [1.0, 1.0, -1.0, 0.25, 0.0, 0.0]);
    assert_eq!(buf.samples[1], Sample::Double(0x3FF0_0000_0000_0000));
    assert_eq!(buf.samples[2], Sample::Double(0xBFF0_0000_0000_0000));
}

#[test]
fn audio_can_be_copied() {
    let wav = build_wav(FORMAT_PCM, 2, 44100, 16, &i16_bytes(&[1, -2]));
    let buf = decode(&wav).unwrap();
    assert_eq!(buf.clone(), buf);
}
