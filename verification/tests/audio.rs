use airplay_bridge::audio::{ensure_44100, resample_pcm, EncodeError};
use airplay_bridge::AudioEncoder;

fn pcm(samples: &[i16]) -> Vec<u8> {
    samples.iter().flat_map(|s| s.to_le_bytes()).collect()
}

fn samples(pcm: &[u8]) -> Vec<i16> {
    pcm.chunks_exact(2).map(|b| i16::from_le_bytes([b[0], b[1]])).collect()
}

/// One stereo frame of a tone.
fn tone(step: i32) -> Vec<u8> {
    let all: Vec<i16> = (0..704).map(|i: i32| ((i * step) % 2000 - 1000) as i16).collect();
    pcm(&all)
}

#[test]
fn test_encoder_creation() {
    let encoder = AudioEncoder::new();
    assert_eq!(encoder.sample_rate(), 44100);
    assert_eq!(encoder.channels(), 2);
    assert_eq!(encoder.bits_per_sample(), 16);
}

#[test]
fn test_frame_size() {
    let encoder = AudioEncoder::new();
    // 352 samples * 2 channels * 2 bytes = 1408 bytes
    assert_eq!(encoder.frame_size(), 1408);
}

#[test]
fn test_encode_alac() {
    let mut encoder = AudioEncoder::new();
    let pcm_data = vec![0u8; encoder.frame_size()];
    let result = encoder.encode_alac(&pcm_data, 44100, 2);
    assert!(result.is_ok());
    // Encoded data should not be empty
    assert!(!result.ok().unwrap().is_empty());
}

#[test]
fn test_encode_raw() {
    let encoder = AudioEncoder::new();
    let pcm_data = vec![0u8; encoder.frame_size()];
    let result = encoder.encode_raw(&pcm_data, 2);
    assert!(result.is_ok());
    // Raw frame should be input size + 7 byte header
    assert_eq!(result.ok().unwrap().len(), encoder.frame_size() + 7);
}

#[test]
fn test_timestamp_increment() {
    let mut encoder = AudioEncoder::new();
    assert_eq!(encoder.next_timestamp(), 0);
    assert_eq!(encoder.next_timestamp(), 352);
    assert_eq!(encoder.next_timestamp(), 704);
}

#[test]
fn test_resample_same_rate() {
    let input = vec![1u8, 2, 3, 4];
    let output = resample_pcm(&input, 44100, 44100, 1);
    assert_eq!(input, output);
}

#[test]
fn default_encoder_is_new() {
    let encoder = AudioEncoder::default();
    assert_eq!(encoder.sample_rate(), 44100);
    assert_eq!(encoder.channels(), 2);
    assert_eq!(encoder.samples_per_frame(), 352);
    assert_eq!(encoder.current_timestamp(), 0);
}

#[test]
fn configured_encoder() {
    let encoder = AudioEncoder::with_config(48000, 1, 24);
    assert_eq!(encoder.sample_rate(), 48000);
    assert_eq!(encoder.channels(), 1);
    assert_eq!(encoder.bits_per_sample(), 24);
    assert_eq!(encoder.frame_size(), 352 * 3);
}

#[test]
fn reset_starts_timestamps_again() {
    let mut encoder = AudioEncoder::new();
    encoder.next_timestamp();
    encoder.next_timestamp();
    assert_eq!(encoder.current_timestamp(), 704);
    encoder.reset();
    assert_eq!(encoder.current_timestamp(), 0);
    assert_eq!(encoder.next_timestamp(), 0);
}

#[test]
fn short_alac_frame_is_refused() {
    let mut encoder = AudioEncoder::new();
    match encoder.encode_alac(&[0u8; 1407], 44100, 2) {
        Err(e) => {
            assert!(matches!(e, EncodeError::ShortAlacFrame { got: 1407, need: 1408 }));
            assert_eq!(
                e.message(),
                "Not enough PCM data for ALAC frame: got 1407 bytes, need 1408"
            );
        }
        Ok(_) => panic!("a short frame was encoded"),
    }
}

#[test]
fn short_raw_frame_is_refused() {
    let encoder = AudioEncoder::new();
    match encoder.encode_raw(&[0u8; 703], 1) {
        Err(e) => {
            assert!(matches!(e, EncodeError::ShortRawFrame));
            assert_eq!(e.message(), "Not enough PCM data for frame");
        }
        Ok(_) => panic!("a short frame was encoded"),
    }
}

#[test]
fn alac_packets_are_those_of_the_codec() {
    let format = alac_encoder::FormatDescription::alac(44100.0, 352, 2);
    let input = alac_encoder::FormatDescription::pcm::<i16>(44100.0, 2);
    let mut codec = alac_encoder::AlacEncoder::new(&format);
    let mut encoder = AudioEncoder::new();
    for step in [3, 7, 7, 11] {
        let frame = tone(step);
        let mut out = vec![0u8; 8192];
        let len = codec.encode(&input, &frame, &mut out);
        let mut more = frame.clone();
        more.extend_from_slice(&[9, 9, 9, 9]);
        let packet = encoder.encode_alac(&more, 44100, 2).ok().unwrap();
        assert_eq!(packet, out[..len].to_vec());
        assert_ne!(packet, frame);
    }
}

#[test]
fn noise_fits_in_a_packet() {
    let mut x: u32 = 12345;
    let mut frame = Vec::new();
    for _ in 0..1408 {
        x = x.wrapping_mul(1664525).wrapping_add(1013904223);
        frame.push((x >> 24) as u8);
    }
    let mut encoder = AudioEncoder::new();
    for _ in 0..8 {
        let packet = encoder.encode_alac(&frame, 44100, 2).ok().unwrap();
        assert!(!packet.is_empty() && packet.len() <= 1408 + 64);
    }
}

#[test]
fn raw_frame_swaps_bytes() {
    let encoder = AudioEncoder::new();
    let mut data: Vec<u8> = (0..704).map(|i: u32| (i % 251) as u8).collect();
    data.push(1);
    let out = encoder.encode_raw(&data, 1).ok().unwrap();
    assert_eq!(out[..7].to_vec(), vec![0x20u8, 0, 0, 0, 0, 0, 0]);
    assert_eq!(out[7..11].to_vec(), vec![1u8, 0, 3, 2]);
    assert_eq!(out.len(), 711);
    let back: Vec<u8> = out[7..].chunks_exact(2).flat_map(|p| vec![p[1], p[0]]).collect();
    assert_eq!(back, data[..704].to_vec());
}

#[test]
fn resampling_follows_the_line() {
    let out = resample_pcm(&pcm(&[0, 100]), 22050, 44100, 1);
    assert_eq!(samples(&out), vec![0, 50, 100, 100]);
    let out = resample_pcm(&pcm(&[0, -10, 30]), 8000, 24000, 1);
    assert_eq!(samples(&out), vec![0, -3, -7, -10, 3, 17, 30, 30, 30]);
}

#[test]
fn resampling_rounds_halves_up() {
    assert_eq!(samples(&resample_pcm(&pcm(&[0, 1]), 1, 2, 1)), vec![0, 1, 1, 1]);
    assert_eq!(samples(&resample_pcm(&pcm(&[0, -1]), 1, 2, 1)), vec![0, 0, -1, -1]);
    let ends = resample_pcm(&pcm(&[i16::MIN, i16::MAX]), 1, 2, 1);
    assert_eq!(samples(&ends), vec![i16::MIN, 0, i16::MAX, i16::MAX]);
}

#[test]
fn resampling_keeps_channels_apart() {
    let out = resample_pcm(&pcm(&[0, 1000, 10, 2000]), 1, 2, 2);
    assert_eq!(samples(&out), vec![0, 1000, 5, 1500, 10, 2000, 10, 2000]);
}

#[test]
fn resampling_counts_samples() {
    let input = vec![0u8; 480 * 4];
    assert_eq!(ensure_44100(&input, 48000, 2).len(), 441 * 4);
    assert_eq!(ensure_44100(&[1, 2, 3], 48000, 2), Vec::<u8>::new());
    assert_eq!(ensure_44100(&[1, 2, 3], 44100, 2), vec![1, 2, 3]);
    assert_eq!(resample_pcm(&[1, 2], 44100, 0, 1), Vec::<u8>::new());
    assert_eq!(resample_pcm(&pcm(&[5, 6, 7]), 3, 1, 1), pcm(&[5]));
}

#[test]
fn resampling_up_and_back_is_lossless() {
    let input = pcm(&[0, 5, -7, 1000, 32767, -32768]);
    let up = resample_pcm(&input, 8000, 24000, 2);
    assert_eq!(resample_pcm(&up, 24000, 8000, 2), input);
}

#[test]
fn resampled_values_stay_between_their_neighbours() {
    let input = [100i16, -300, 32000, -32000, 7];
    let out = samples(&resample_pcm(&pcm(&input), 44100, 48000, 1));
    for (i, v) in out.iter().enumerate() {
        let k = i * 44100 / 48000;
        let a = input[k];
        let b = if k + 1 < input.len() { input[k + 1] } else { a };
        assert!(a.min(b) <= *v && *v <= a.max(b));
        if i * 44100 % 48000 == 0 {
            assert_eq!(*v, a);
        }
    }
}

#[test]
fn partial_sample_is_ignored() {
    let whole = pcm(&[1, 2, 300, -400, 5, 6]);
    for extra in [vec![9u8], vec![9, 9], vec![9, 9, 9]] {
        let mut more = whole.clone();
        more.extend_from_slice(&extra);
        assert_eq!(resample_pcm(&more, 2, 3, 2), resample_pcm(&whole, 2, 3, 2));
        assert_eq!(resample_pcm(&more, 3, 3, 2), more);
    }
}

#[test]
fn channels_are_converted_apart() {
    let left = [10i16, -200, 3000, 17];
    let right = [-5i16, 32767, -32768, 0];
    let both: Vec<i16> = (0..4).flat_map(|i| vec![left[i], right[i]]).collect();
    for (from, to) in [(44100, 48000), (48000, 44100), (1, 3), (5, 5)] {
        let out = samples(&resample_pcm(&pcm(&both), from, to, 2));
        let l: Vec<i16> = out.iter().step_by(2).cloned().collect();
        let r: Vec<i16> = out.iter().skip(1).step_by(2).cloned().collect();
        assert_eq!(pcm(&l), resample_pcm(&pcm(&left), from, to, 1));
        assert_eq!(pcm(&r), resample_pcm(&pcm(&right), from, to, 1));
    }
}

#[test]
fn doubling_the_rate_doubles_the_bytes() {
    let input = pcm(&[1, -1, 500, 600]);
    let up = resample_pcm(&input, 22050, 44100, 2);
    assert_eq!(up.len(), 2 * input.len());
    assert_eq!(up, ensure_44100(&input, 22050, 2));
    assert_eq!(resample_pcm(&up, 44100, 22050, 2), input);
}
