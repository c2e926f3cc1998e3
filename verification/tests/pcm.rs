use fung_preng_app::pcm::{deinterleave, deinterleave_frames, fill_from, interleave, lane_tail, lane_window};

#[test]
fn deinterleave_keeps_partial_frame() {
    let s = [1, 2, 3, 4, 5, 6, 7];
    let p = deinterleave(&s, 2);
    assert_eq!(p, vec![vec![1, 3, 5, 7], vec![2, 4, 6]]);
    let p = deinterleave(&s, 3);
    assert_eq!(p, vec![vec![1, 4, 7], vec![2, 5], vec![3, 6]]);
    let empty: [i32; 0] = [];
    assert_eq!(deinterleave(&empty, 2), vec![Vec::<i32>::new(), Vec::new()]);
}

#[test]
fn deinterleave_frames_drops_partial_frame() {
    let s = [1, 2, 3, 4, 5, 6, 7];
    assert_eq!(deinterleave_frames(&s, 2), vec![vec![1, 3, 5], vec![2, 4, 6]]);
    assert_eq!(deinterleave_frames(&s, 1), vec![s.to_vec()]);
}

#[test]
fn interleave_joins_frames() {
    let p = vec![vec![1.0f32, 3.0, 5.0], vec![2.0, 4.0, 6.0, 8.0]];
    assert_eq!(interleave(&p), vec![1.0, 2.0, 3.0, 4.0, 5.0, 6.0]);
}

#[test]
fn round_trips() {
    let s: Vec<f32> = (0..12).map(|i| i as f32 * 0.25).collect();
    assert_eq!(interleave(&deinterleave(&s, 3)), s);
    assert_eq!(interleave(&deinterleave_frames(&s[..11], 2)), s[..10].to_vec());
}

#[test]
fn windows_of_lanes() {
    let p = vec![vec![1, 2, 3, 4], vec![5, 6, 7, 8]];
    assert_eq!(lane_window(&p, 1, 2), vec![vec![2, 3], vec![6, 7]]);
    assert_eq!(lane_tail(&p, 3), vec![vec![4], vec![8]]);
    assert_eq!(lane_tail(&p, 4), vec![Vec::<i32>::new(), Vec::new()]);
}

#[test]
fn fill_then_silence() {
    let track = [0.1f32, 0.2, 0.3, 0.4, 0.5];
    let mut out = [9.0f32; 3];
    let pos = fill_from(&mut out, &track, 0, 0.0);
    assert_eq!(pos, 3);
    assert_eq!(out, [0.1, 0.2, 0.3]);
    let pos = fill_from(&mut out, &track, pos, 0.0);
    assert_eq!(pos, 5);
    assert_eq!(out, [0.4, 0.5, 0.0]);
    let pos = fill_from(&mut out, &track, pos, 0.0);
    assert_eq!(pos, 5);
    assert_eq!(out, [0.0, 0.0, 0.0]);
}
