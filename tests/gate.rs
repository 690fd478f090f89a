use echo_nlms::{rms_level, GateConfig, LEVEL_ONE};

#[test]
fn level_of_empty_block_is_zero() {
    assert_eq!(rms_level(&[]), 0);
}

#[test]
fn level_values() {
    assert_eq!(rms_level(&[16384; 8]), 32770);
    assert_eq!(rms_level(&[32767; 4]), LEVEL_ONE);
    assert_eq!(rms_level(&[-32768; 4]), LEVEL_ONE);
    assert_eq!(rms_level(&[1000, -1000, 1000, -1000]), 2001);
    assert_eq!(rms_level(&[3, 4]), 8);
    assert_eq!(rms_level(&[0; 16]), 0);
}

#[test]
fn silent_render_never_adapts() {
    for ratio in [0u32, 1, 65536, 163_840, u32::MAX] {
        let g = GateConfig { min_render_level: 0, double_talk_ratio: ratio };
        for capture in [1u32, 100, 65536] {
            assert!(!g.should_adapt(0, capture));
        }
    }
    let g = GateConfig { min_render_level: 131, double_talk_ratio: 163_840 };
    assert!(!g.adapt_for_blocks(&[0; 32], &[500; 32]));
}

#[test]
fn gate_decisions() {
    let g = GateConfig { min_render_level: 131, double_talk_ratio: 163_840 };
    // quiet render: no reference
    assert!(!g.should_adapt(131, 10));
    // capture at most 2.5 times the render level
    assert!(g.should_adapt(1000, 2500));
    assert!(!g.should_adapt(1000, 2501));
    assert!(g.should_adapt(1000, 0));
    assert!(g.adapt_for_blocks(&[1000, -1000, 1000, -1000], &[2000; 4]));
    assert!(!g.adapt_for_blocks(&[1000, -1000, 1000, -1000], &[6000; 4]));
}

#[test]
fn only_silence_has_level_zero() {
    assert_eq!(rms_level(&[1, 0, 0, 0, 0]), 1);
    assert_eq!(rms_level(&[0, 0, 0, -1]), 2);
    assert_eq!(rms_level(&[0; 5]), 0);
}
