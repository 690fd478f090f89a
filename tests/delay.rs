use echo_nlms::{dec_idx, process_delay};

#[test]
fn delay_line_shifts_by_its_length() {
    let mut line = vec![0i16; 3];
    let mut pos = 0usize;
    let mut output = vec![0i16; 5];
    process_delay(&[1, 2, 3, 4, 5], &mut output, &mut line, &mut pos);
    assert_eq!(output, vec![0, 0, 0, 1, 2]);
    assert_eq!(pos, 2);
    assert_eq!(line, vec![4, 5, 3]);
    let mut next = vec![0i16; 2];
    process_delay(&[6, 7], &mut next, &mut line, &mut pos);
    assert_eq!(next, vec![3, 4]);
}

#[test]
fn delay_leaves_tail_of_longer_output() {
    let mut line = vec![9i16, 8];
    let mut pos = 1usize;
    let mut output = vec![-1i16; 4];
    process_delay(&[5], &mut output, &mut line, &mut pos);
    assert_eq!(output, vec![8, -1, -1, -1]);
    assert_eq!(pos, 0);
    assert_eq!(line, vec![9, 5]);
}

#[test]
fn dec_idx_wraps() {
    assert_eq!(dec_idx(4, 0), 3);
    assert_eq!(dec_idx(4, 3), 2);
    assert_eq!(dec_idx(1, 0), 0);
}

#[test]
fn delay_split_matches_whole() {
    let input: Vec<i16> = (1..=11).collect();
    let mut line_a = vec![7i16, 8, 9, 10];
    let mut pos_a = 3usize;
    let mut out_a = vec![0i16; 4];
    let mut out_b = vec![0i16; 7];
    process_delay(&input[..4], &mut out_a, &mut line_a, &mut pos_a);
    process_delay(&input[4..], &mut out_b, &mut line_a, &mut pos_a);
    let mut line_w = vec![7i16, 8, 9, 10];
    let mut pos_w = 3usize;
    let mut out_w = vec![0i16; 11];
    process_delay(&input, &mut out_w, &mut line_w, &mut pos_w);
    out_a.extend_from_slice(&out_b);
    assert_eq!(out_a, out_w);
    assert_eq!(line_a, line_w);
    assert_eq!(pos_a, pos_w);
    assert_eq!(pos_w, (3 + 11) % 4);
}
