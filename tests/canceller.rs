use echo_nlms::{AecError, NlmsCanceller, DEFAULT_EPSILON, ENERGY_ONE, TAP_ONE};

fn noise(seed: &mut u32, n: usize, amplitude: i32) -> Vec<i16> {
    let mut out = Vec::with_capacity(n);
    for _ in 0..n {
        *seed = seed.wrapping_mul(1_103_515_245).wrapping_add(12_345);
        let v = ((*seed >> 8) % (2 * amplitude as u32 + 1)) as i32 - amplitude;
        out.push(v as i16);
    }
    out
}

fn mean_square(block: &[i16]) -> f64 {
    let sum: f64 = block.iter().map(|&s| (s as f64) * (s as f64)).sum();
    sum / block.len() as f64
}

#[test]
fn new_rejects_zero_taps() {
    assert_eq!(NlmsCanceller::new(0, 100).err(), Some(AecError::InvalidTapLength));
}

#[test]
fn new_accepts_long_filters() {
    let c = NlmsCanceller::new((1 << 20) + 1, 100).unwrap();
    assert_eq!(c.taps().len(), (1 << 20) + 1);
}

#[test]
fn new_accepts_every_valid_tap_length_and_step_size() {
    for n in [1usize, 2, 2048] {
        for mu in [0u32, 6554, 65536, 131072, u32::MAX] {
            let c = NlmsCanceller::new(n, mu).unwrap();
            assert_eq!(c.taps().len(), n);
            assert!(c.taps().iter().all(|&t| t == 0));
        }
    }
}

#[test]
fn huge_step_size_keeps_taps_bounded() {
    let mut c = NlmsCanceller::new(4, u32::MAX).unwrap();
    let mut seed = 5u32;
    for _ in 0..20 {
        let render = noise(&mut seed, 64, 30_000);
        let capture = noise(&mut seed, 64, 30_000);
        let mut output = vec![0i16; 64];
        c.process_block(&render, &capture, &mut output, true).unwrap();
        assert!(c.taps().iter().all(|&t| t.abs() <= 1i64 << 47));
    }
    assert_eq!(
        NlmsCanceller::with_epsilon(0, u32::MAX, 0).err(),
        Some(AecError::InvalidTapLength)
    );
}

#[test]
fn silence_flushes_the_output() {
    let mut c = NlmsCanceller::new(4, 6554).unwrap();
    let mut seed = 11u32;
    let render = noise(&mut seed, 32, 9000);
    let capture = noise(&mut seed, 32, 9000);
    let mut out = vec![0i16; 32];
    c.process_block(&render, &capture, &mut out, true).unwrap();
    let zeros = vec![0i16; 8];
    let mut quiet = vec![1i16; 8];
    c.process_block(&zeros, &zeros, &mut quiet, true).unwrap();
    assert!(quiet[3..].iter().all(|&s| s == 0));
    assert_eq!(c.estimate_echo(), 0);
}

#[test]
fn with_epsilon_rejects_zero_floor() {
    assert_eq!(
        NlmsCanceller::with_epsilon(8, 100, 0).err(),
        Some(AecError::InvalidEpsilon)
    );
}

#[test]
fn new_starts_silent() {
    let c = NlmsCanceller::new(5, 6554).unwrap();
    assert_eq!(c.taps(), &[0i64; 5][..]);
    assert_eq!(c.history(), vec![0i16; 5]);
    assert_eq!(c.energy(), DEFAULT_EPSILON as u128);
    assert_eq!(c.epsilon(), DEFAULT_EPSILON);
    assert_eq!(c.estimate_echo(), 0);
}

#[test]
fn zero_step_size_passes_capture_through() {
    let mut c = NlmsCanceller::new(16, 0).unwrap();
    let mut seed = 7u32;
    for _ in 0..5 {
        let render = noise(&mut seed, 64, 20_000);
        let capture = noise(&mut seed, 64, 30_000);
        let mut output = vec![0i16; 64];
        c.process_block(&render, &capture, &mut output, true).unwrap();
        assert_eq!(output, capture);
        assert!(c.taps().iter().all(|&t| t == 0));
    }
}

#[test]
fn energy_floor_holds_on_silence() {
    let mut c = NlmsCanceller::with_epsilon(8, 6554, 3).unwrap();
    let zeros = vec![0i16; 32];
    for _ in 0..10 {
        let mut output = vec![1i16; 32];
        c.process_block(&zeros, &zeros, &mut output, true).unwrap();
        assert!(c.energy() >= 3);
        assert_eq!(output, zeros);
    }
    assert_eq!(c.energy(), 3);
}

#[test]
fn energy_tracks_sum_of_squares() {
    let mut c = NlmsCanceller::new(3, 0).unwrap();
    let mut output = vec![0i16; 4];
    c.process_block(&[1, 2, 3, 4], &[0, 0, 0, 0], &mut output, false).unwrap();
    assert_eq!(c.history(), vec![4, 3, 2]);
    // 1 (floor) + 1000 * (1 + 4 + 9 + 16 - 1): the floor stays in, within epsilon.
    assert_eq!(c.energy(), 1 + ENERGY_ONE * 29);
}

#[test]
fn fixed_lag_first_tap_faces_latest_sample() {
    let mut c = NlmsCanceller::new(4, 65535).unwrap();
    let mut out = [0i16; 1];
    c.process_block(&[100], &[100], &mut out, true).unwrap();
    assert_eq!(out, [100]);
    assert_eq!(c.taps(), &[4_294_900_901i64, 0, 0, 0][..]);
    c.process_block(&[7], &[0], &mut out, false).unwrap();
    assert_eq!(c.history(), vec![7, 100, 0, 0]);
    assert_eq!(c.estimate_echo(), 4_294_900_901i128 * 7);
    assert_eq!(out, [-6]);
}

#[test]
fn converges_on_linear_echo() {
    let mut c = NlmsCanceller::new(4, 32768).unwrap();
    let mut seed = 99u32;
    let mut errors = Vec::new();
    for _ in 0..40 {
        let render = noise(&mut seed, 128, 8000);
        let capture: Vec<i16> = render.iter().map(|&r| r / 2).collect();
        let mut output = vec![0i16; 128];
        c.process_block(&render, &capture, &mut output, true).unwrap();
        errors.push(mean_square(&output));
    }
    assert!(errors[0] > 1000.0);
    assert!(errors[39] < errors[0]);
    assert!(errors[39] <= 2.0, "residual {}", errors[39]);
    let w = c.taps()[0] as f64 / TAP_ONE as f64;
    assert!((w - 0.5).abs() < 0.01, "weight {}", w);
}

#[test]
fn output_saturates_at_maximum() {
    let mut c = NlmsCanceller::new(1, 65535).unwrap();
    let mut out = [0i16; 1];
    c.process_block(&[1000], &[-1000], &mut out, true).unwrap();
    assert!(c.taps()[0] < 0);
    c.process_block(&[32767], &[32767], &mut out, false).unwrap();
    assert_eq!(out, [i16::MAX]);
}

#[test]
fn output_saturates_at_minimum() {
    let mut c = NlmsCanceller::new(1, 65535).unwrap();
    let mut out = [0i16; 1];
    c.process_block(&[1000], &[1000], &mut out, true).unwrap();
    assert!(c.taps()[0] > 0);
    c.process_block(&[32767], &[-32768], &mut out, false).unwrap();
    assert_eq!(out, [i16::MIN]);
}

#[test]
fn length_mismatch_changes_nothing() {
    let mut c = NlmsCanceller::new(4, 6554).unwrap();
    let mut warm = [0i16; 3];
    c.process_block(&[5, -6, 7], &[1, 2, 3], &mut warm, true).unwrap();
    let taps = c.taps().to_vec();
    let history = c.history();
    let energy = c.energy();
    let render = [1i16; 10];
    let capture = [2i16; 10];
    let mut output = [9i16; 9];
    assert_eq!(
        c.process_block(&render, &capture, &mut output, true),
        Err(AecError::LengthMismatch)
    );
    assert_eq!(output, [9i16; 9]);
    assert_eq!(c.taps(), &taps[..]);
    assert_eq!(c.history(), history);
    assert_eq!(c.energy(), energy);
    let mut none: [i16; 0] = [];
    assert_eq!(
        c.process_block(&[], &[], &mut none, true),
        Err(AecError::EmptyBlock)
    );
    assert_eq!(c.energy(), energy);
    let mut short = [0i16; 10];
    assert_eq!(
        c.process_block(&render[..9], &capture, &mut short, true),
        Err(AecError::LengthMismatch)
    );
}

#[test]
fn two_blocks_match_one_concatenated_block() {
    let mut seed = 3u32;
    let render = noise(&mut seed, 50, 12_000);
    let capture = noise(&mut seed, 50, 12_000);
    let mut split = NlmsCanceller::new(8, 6554).unwrap();
    let mut whole = NlmsCanceller::new(8, 6554).unwrap();
    let mut out_a = vec![0i16; 20];
    let mut out_b = vec![0i16; 30];
    split.process_block(&render[..20], &capture[..20], &mut out_a, true).unwrap();
    split.process_block(&render[20..], &capture[20..], &mut out_b, true).unwrap();
    let mut out_whole = vec![0i16; 50];
    whole.process_block(&render, &capture, &mut out_whole, true).unwrap();
    assert_eq!(split.taps(), whole.taps());
    assert_eq!(split.history(), whole.history());
    assert_eq!(split.energy(), whole.energy());
    out_a.extend_from_slice(&out_b);
    assert_eq!(out_a, out_whole);
}

#[test]
fn no_adapt_keeps_taps() {
    let mut c = NlmsCanceller::new(4, 65535).unwrap();
    let mut out = [0i16; 4];
    c.process_block(&[100, 200, 300, 400], &[50, 60, 70, 80], &mut out, false).unwrap();
    assert_eq!(out, [50, 60, 70, 80]);
    assert!(c.taps().iter().all(|&t| t == 0));
    assert_eq!(c.history(), vec![400, 300, 200, 100]);
}
