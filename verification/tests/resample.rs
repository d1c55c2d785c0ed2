use notes::resample::{output_len, plan, tap, Tap, TARGET_RATE};

fn mix(samples: &[f32], rate: u32) -> Vec<f32> {
    let taps = plan(samples.len(), rate).unwrap();
    taps.iter()
        .map(|t| {
            if t.blend {
                let frac = t.weight as f64 / TARGET_RATE as f64;
                samples[t.index] * (1.0 - frac) as f32 + samples[t.index + 1] * frac as f32
            } else {
                samples[t.index]
            }
        })
        .collect()
}

#[test]
fn the_target_rate_is_16_khz() {
    assert_eq!(TARGET_RATE, 16000);
}

#[test]
fn one_second_at_44100_gives_16000_samples() {
    assert_eq!(output_len(44100, 44100), Some(16000));
}

#[test]
fn length_is_rounded_down() {
    assert_eq!(output_len(10, 44100), Some(3));
    assert_eq!(output_len(1, 44100), Some(0));
    assert_eq!(output_len(3, 44100), Some(1));
    assert_eq!(output_len(100, 48000), Some(33));
    assert_eq!(output_len(100, 8000), Some(200));
}

#[test]
fn empty_input_gives_empty_output() {
    assert_eq!(output_len(0, 44100), Some(0));
    assert_eq!(plan(0, 44100), Some(Vec::new()));
    assert!(mix(&[], 44100).is_empty());
}

#[test]
fn a_rate_of_zero_gives_no_length() {
    assert_eq!(output_len(10, 0), None);
    assert_eq!(plan(10, 0), None);
}

#[test]
fn a_length_beyond_usize_gives_none() {
    assert_eq!(output_len(usize::MAX, 1), None);
    assert_eq!(plan(usize::MAX, 1), None);
}

#[test]
fn input_at_the_target_rate_passes_through() {
    assert_eq!(output_len(12345, 16000), Some(12345));
    let taps = plan(5, 16000).unwrap();
    for (i, t) in taps.iter().enumerate() {
        assert_eq!(t.index, i);
        assert_eq!(t.weight, 0);
    }
    assert_eq!(taps.len(), 5);
    let samples = [0.5f32, -0.25, 0.125, 1.0, -1.0];
    assert_eq!(mix(&samples, 16000), samples.to_vec());
    assert_eq!(mix(&mix(&samples, 16000), 16000), samples.to_vec());
}

#[test]
fn taps_at_44100() {
    assert_eq!(tap(0, 10, 44100), Tap { index: 0, weight: 0, blend: true });
    assert_eq!(tap(1, 10, 44100), Tap { index: 2, weight: 12100, blend: true });
    assert_eq!(tap(2, 10, 44100), Tap { index: 5, weight: 8200, blend: true });
    assert_eq!(plan(10, 44100).unwrap().len(), 3);
}

#[test]
fn the_last_input_sample_has_no_neighbour_to_mix_in() {
    assert_eq!(tap(1, 2, 8000), Tap { index: 0, weight: 8000, blend: true });
    assert_eq!(tap(2, 2, 8000), Tap { index: 1, weight: 0, blend: false });
    assert_eq!(tap(3, 2, 8000), Tap { index: 1, weight: 8000, blend: false });
    assert_eq!(mix(&[0.0, 1.0], 8000), vec![0.0, 0.5, 1.0, 1.0]);
}

#[test]
fn interpolation_lies_between_the_neighbours() {
    let samples: Vec<f32> = (0..20).map(|i| i as f32).collect();
    let out = mix(&samples, 44100);
    assert_eq!(out.len(), 7);
    for (i, v) in out.iter().enumerate() {
        let want = i as f32 * 2.75625;
        assert!((v - want).abs() < 1e-4, "{v} is not {want}");
    }
}

#[test]
fn every_tap_lies_inside_the_input() {
    for len in [1usize, 2, 3, 17, 441, 1000] {
        for rate in [8000u32, 11025, 16000, 22050, 44100, 48000, 96000] {
            let taps = plan(len, rate).unwrap();
            assert_eq!(taps.len(), len * 16000 / rate as usize);
            let mut last = 0;
            for t in taps {
                assert!(t.index < len);
                assert!(t.weight < 16000);
                assert!(t.index >= last);
                assert_eq!(t.blend, t.index + 1 < len);
                last = t.index;
            }
        }
    }
}
