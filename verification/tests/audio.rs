//! The audio device, the mixer's voices and the noise source.

use astraglyph::audio::device::{
    open_error, output_format, prepare_error, AudioDevice, DeviceStatus, BUFFER_COUNT,
    BUFFER_FRAMES, OUTPUT_CHANNELS, SAMPLE_RATE, WHDR_DONE,
};
use astraglyph::audio::mixer::{
    mix_limit, Attenuation, Mixer, Point, Spatial, Voice, MAX_VOICES,
};
use astraglyph::audio::synth::{noise_step, white, NOISE_SEED, SYNTH_RATE};
use astraglyph::audio::wav::Sample;

// --- device ---

#[test]
fn only_active_status_accepts_samples() {
    assert!(DeviceStatus::Active.is_active());
    assert!(!DeviceStatus::Unavailable.is_active());
    assert!(!DeviceStatus::Unsupported.is_active());
    for s in [
        DeviceStatus::Active,
        DeviceStatus::Unavailable,
        DeviceStatus::Unsupported,
    ] {
        assert!(!s.describe().is_empty());
        assert!(!s.tag().is_empty());
    }
}

/// The buffer geometry has to stay consistent with the mixer's channel count,
/// or the scratch buffer and the device block would disagree about size.
#[test]
fn buffer_geometry_is_consistent() {
    assert_eq!(OUTPUT_CHANNELS, 2);
    assert!(BUFFER_FRAMES > 0);
    assert!(BUFFER_COUNT >= 2, "double buffering at minimum");
    // ~21 ms at 48 kHz: short enough not to feel detached from the key press
    // that triggered the sound.
    let latency_ms = BUFFER_FRAMES as f32 / SAMPLE_RATE as f32 * 1000.0;
    assert!(
        latency_ms < 40.0,
        "buffer latency of {latency_ms} ms would be noticeable"
    );
}

/// A device that failed to open must accept a frame without doing anything, so
/// a machine with no sound card runs the engine rather than crashing in it.
#[test]
fn submitting_to_an_inactive_device_is_a_no_op() {
    let mut device = AudioDevice::open(DeviceStatus::Unavailable);

    let mixer = Mixer::new(SAMPLE_RATE);
    device.begin_frame(mixer.voice_count());
    assert_eq!(device.claim(), None);
    device.stop();
    assert_eq!(device.frames_submitted(), 0);
    assert_eq!(device.queued_buffers(), 0);
    assert_eq!(
        device.starved(),
        0,
        "a device that was never open cannot starve"
    );
}

#[test]
fn buffers_are_filled_in_turn_until_all_are_queued() {
    let mut device = AudioDevice::open(DeviceStatus::Active);
    for expected in 0..BUFFER_COUNT {
        let index = device.claim().expect("a free buffer");
        assert_eq!(index, expected);
        device.finish_write(index, true);
    }
    assert_eq!(device.queued_buffers(), 3);
    assert_eq!(device.frames_submitted(), 3 * 1024);
    assert_eq!(device.claim(), None, "the device still holds the first buffer");

    // The device is done with the second buffer: its turn comes next.
    device.set_flags(1, WHDR_DONE);
    assert_eq!(device.queued_buffers(), 2);
    assert_eq!(device.claim(), Some(1));
}

#[test]
fn a_refused_buffer_is_not_queued() {
    let mut device = AudioDevice::open(DeviceStatus::Active);
    let index = device.claim().expect("a free buffer");
    device.finish_write(index, false);
    assert_eq!(device.queued_buffers(), 0);
    assert_eq!(device.frames_submitted(), 0);
}

/// Running dry counts only while something plays.
#[test]
fn starvation_needs_a_playing_voice() {
    let mut device = AudioDevice::open(DeviceStatus::Active);
    device.begin_frame(0);
    assert_eq!(device.starved(), 0);
    device.begin_frame(1);
    assert_eq!(device.starved(), 1);
    let index = device.claim().expect("a free buffer");
    device.finish_write(index, true);
    device.begin_frame(1);
    assert_eq!(device.starved(), 1);
    device.stop();
    assert_eq!(device.queued_buffers(), 0, "stopping empties the queue");
}

#[test]
fn the_output_format_agrees_with_itself() {
    let format = output_format();
    assert_eq!(format.format_tag, 1);
    assert_eq!(format.channels, 2);
    assert_eq!(format.samples_per_sec, 48_000);
    assert_eq!(format.block_align, 4);
    assert_eq!(format.avg_bytes_per_sec, 192_000);
    assert_eq!(format.bits_per_sample, 16);
    assert_eq!(format.extra_size, 0);
}

#[test]
fn device_errors_name_their_code() {
    assert_eq!(
        open_error(4).message(),
        "invalid state: waveOutOpen failed with code 4 (no output device?)"
    );
    assert_eq!(
        prepare_error(11).message(),
        "invalid state: waveOutPrepareHeader failed with code 11"
    );
}

// --- mixer ---

/// Voices that play as loud as their own gain says.
fn play(mixer: &mut Mixer, voice: Voice) -> bool {
    let gains: Vec<u32> = mixer.voices.iter().map(|v| v.gain).collect();
    mixer.play(voice, voice.gain, &gains)
}

fn gain(level: f32) -> u32 {
    level.to_bits()
}

#[test]
fn a_zero_or_negative_speed_is_clamped_so_a_voice_cannot_stall() {
    let v = Voice::new(0).with_speed(0.0f32.to_bits());
    assert!(f32::from_bits(v.speed) > 0.0);
    let v = Voice::new(0).with_speed((-3.0f32).to_bits());
    assert!(f32::from_bits(v.speed) > 0.0);
    let v = Voice::new(0).with_speed(f32::NAN.to_bits());
    assert_eq!(f32::from_bits(v.speed), 0.01);
}

#[test]
fn a_negative_gain_becomes_silence() {
    assert_eq!(Voice::new(0).with_gain(gain(-0.5)).gain, 0);
    assert_eq!(Voice::new(0).with_gain(f32::NAN.to_bits()).gain, 0);
    assert_eq!(Voice::new(0).with_gain(gain(0.5)).gain, gain(0.5));
}

#[test]
fn the_voice_cap_is_enforced() {
    let mut mixer = Mixer::new(48000);
    for _ in 0..MAX_VOICES {
        assert!(play(&mut mixer, Voice::new(0).looping(true)));
    }
    assert_eq!(mixer.voice_count(), MAX_VOICES);
    // One more at the same gain must be refused, not silently grow the list.
    assert!(!play(&mut mixer, Voice::new(0).looping(true)));
    assert_eq!(mixer.voice_count(), MAX_VOICES);
}

/// A burst of distant chatter must not be able to drown out the sound the
/// player needs to hear, so a louder voice evicts the quietest.
#[test]
fn a_louder_voice_evicts_the_quietest_when_full() {
    let mut mixer = Mixer::new(48000);
    for _ in 0..MAX_VOICES {
        play(&mut mixer, Voice::new(0).with_gain(gain(0.1)).looping(true));
    }
    assert!(
        play(&mut mixer, Voice::new(0).with_gain(gain(1.0)).looping(true)),
        "a much louder voice should claim a slot"
    );
    assert_eq!(mixer.voice_count(), MAX_VOICES);
    let loudest = mixer
        .voices
        .iter()
        .map(|v| f32::from_bits(v.gain))
        .fold(0.0f32, f32::max);
    assert!((loudest - 1.0).abs() < 1e-6, "the loud voice is not in the mix");
}

#[test]
fn only_the_quietest_voice_gives_way() {
    let mut mixer = Mixer::new(48000);
    for i in 0..MAX_VOICES {
        let level = if i == 7 { 0.1 } else { 0.5 };
        play(&mut mixer, Voice::new(i).with_gain(gain(level)));
    }
    assert!(play(&mut mixer, Voice::new(99).with_gain(gain(0.2))));
    assert_eq!(mixer.voices[7].buffer, 99);
    assert!(!play(&mut mixer, Voice::new(100).with_gain(gain(0.2))));
}

/// `stop_looping` must leave one-shots alone: cutting them too would truncate
/// whatever had just been triggered.
#[test]
fn stop_looping_spares_one_shots() {
    let mut mixer = Mixer::new(48000);
    play(&mut mixer, Voice::new(0).looping(true));
    play(&mut mixer, Voice::new(0));
    assert_eq!(mixer.voice_count(), 2);
    mixer.stop_looping();
    assert_eq!(mixer.voice_count(), 1, "the one-shot should survive");
    assert!(!mixer.voices[0].looping);
}

#[test]
fn set_spatial_all_looping_moves_loops_and_not_one_shots() {
    let mut mixer = Mixer::new(48000);
    play(&mut mixer, Voice::new(0).looping(true));
    play(&mut mixer, Voice::new(0));
    let target = Spatial::at(Point { x: 3.0f32.to_bits(), y: 0, z: 0 });
    mixer.set_spatial_all_looping(target);
    assert_eq!(mixer.voices[0].spatial, target);
    assert_eq!(
        mixer.voices[1].spatial,
        Spatial::Unplaced,
        "a one-shot must keep its own placement"
    );
}

#[test]
fn a_placed_source_falls_silent_at_sixty() {
    let attenuation = Attenuation::Inverse {
        ref_distance: 1.0f32.to_bits(),
        max_distance: 60.0f32.to_bits(),
    };
    assert_eq!(Attenuation::default(), attenuation);
    let origin = Point { x: 0, y: 0, z: 0 };
    assert_eq!(
        Spatial::at(origin),
        Spatial::At { position: origin, velocity: origin, attenuation }
    );
}

#[test]
fn stop_all_clears_every_voice() {
    let mut mixer = Mixer::new(48000);
    for _ in 0..4 {
        play(&mut mixer, Voice::new(0).looping(true));
    }
    mixer.stop_all();
    assert_eq!(mixer.voice_count(), 0);
}

/// Advance every voice to a cursor in a sound of `frames` frames, as a mix of
/// that length would.
fn run_to(mixer: &mut Mixer, cursor: f64, frames: usize) {
    for voice in mixer.voices.iter_mut() {
        let wrapped = (cursor % frames as f64).to_bits();
        voice.advance(cursor.to_bits(), frames, cursor >= frames as f64, wrapped);
    }
    mixer.retire();
}

#[test]
fn a_one_shot_voice_retires_when_it_runs_out() {
    let mut mixer = Mixer::new(48000);
    play(&mut mixer, Voice::new(0));
    assert_eq!(mixer.voice_count(), 1);
    run_to(&mut mixer, 32.0, 8);
    assert_eq!(mixer.voice_count(), 0, "a finished voice must be dropped");
    assert_eq!(mixer.retired(), 1);
}

#[test]
fn a_looping_voice_never_retires() {
    let mut mixer = Mixer::new(48000);
    play(&mut mixer, Voice::new(0).looping(true));
    for _ in 0..20 {
        run_to(&mut mixer, 64.0, 8);
    }
    assert_eq!(mixer.voice_count(), 1, "a loop must keep playing");
    assert_eq!(mixer.retired(), 0);
}

#[test]
fn a_loop_goes_on_at_the_remainder() {
    let mut voice = Voice::new(0).looping(true);
    voice.advance(12.5f64.to_bits(), 10, true, 2.5f64.to_bits());
    assert_eq!(f64::from_bits(voice.cursor), 2.5);
    assert!(!voice.is_finished());
    // The frame after the last is the first of a loop, and the last of a
    // one-shot.
    assert_eq!(voice.frames_read(9, 10), (9, 0));
    assert_eq!(voice.frames_read(3, 10), (3, 4));
    assert_eq!(Voice::new(0).frames_read(9, 10), (9, 9));
}

#[test]
fn a_voice_of_an_empty_sound_finishes() {
    let mut voice = Voice::new(0).looping(true);
    voice.advance(1.0f64.to_bits(), 0, true, 0);
    assert!(voice.is_finished());
    voice.seek(0);
    assert!(!voice.is_finished(), "seeking plays a voice again");
}

#[test]
fn a_mix_writes_no_more_than_fits() {
    assert_eq!(mix_limit(4, 8), 8);
    assert_eq!(mix_limit(4, 100), 8);
    assert_eq!(mix_limit(4, 5), 5);
    assert_eq!(mix_limit(0, 5), 0);
}

#[test]
fn a_rate_of_nothing_becomes_one() {
    assert_eq!(Mixer::new(0).sample_rate(), 1);
    assert_eq!(Mixer::new(48000).sample_rate(), 48000);
}

// --- synth ---

/// The generated rate must differ from the output rate, or the resampler's
/// non-identity path would never run in the demo — and that is the path most
/// likely to be subtly wrong.
#[test]
fn the_synth_rate_is_not_the_output_rate() {
    assert_ne!(SYNTH_RATE, SAMPLE_RATE);
}

#[test]
fn noise_is_a_linear_congruence() {
    assert_eq!(noise_step(0), 1_013_904_223);
    assert_eq!(
        noise_step(NOISE_SEED),
        NOISE_SEED.wrapping_mul(1_664_525).wrapping_add(1_013_904_223)
    );
}

/// Deterministic, never empty, and within full scale.
#[test]
fn white_noise_stays_in_range() {
    let samples = white(1000);
    assert_eq!(samples.len(), 1000);
    assert_eq!(samples, white(1000));
    assert_eq!(white(0).len(), 1);
    for sample in &samples {
        match *sample {
            Sample::Fraction { value, scale } => {
                assert!(-scale <= value && value <= scale, "{value} of {scale}")
            }
            other => panic!("noise is a fraction, got {other:?}"),
        }
    }
}
