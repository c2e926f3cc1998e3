use fung_preng_app::mixer::{MixLayout, MixSource, Mixer};

#[test]
fn layout_clamps_to_track_a() {
    let l = Mixer::layout(100, 50, 80, 40, 2);
    assert_eq!(l, MixLayout { start_a: 80, frame_count: 10, channels: 2, len_b: 50 });
    let l = Mixer::layout(100, 50, 150, 40, 2);
    assert_eq!(l.start_a, 100);
    assert_eq!(l.frame_count, 0);
    let l = Mixer::layout(100, 50, 10, 31, 2);
    assert_eq!(l.frame_count, 15);
}

#[test]
fn sources_in_order() {
    let l = Mixer::layout(10, 8, 6, 4, 2);
    assert_eq!(l.output_len(), 6 + 8);
    assert_eq!(l.source(0), MixSource::SoloA(0));
    assert_eq!(l.source(5), MixSource::SoloA(5));
    assert_eq!(l.source(6), MixSource::Blend { frame: 0, a: 6, b: Some(0) });
    assert_eq!(l.source(9), MixSource::Blend { frame: 1, a: 9, b: Some(3) });
    assert_eq!(l.source(10), MixSource::SoloB(4));
    assert_eq!(l.source(13), MixSource::SoloB(7));
}

#[test]
fn short_track_b_blends_with_silence() {
    let l = Mixer::layout(10, 2, 4, 6, 2);
    assert_eq!(l.output_len(), 10);
    assert_eq!(l.source(5), MixSource::Blend { frame: 0, a: 5, b: Some(1) });
    assert_eq!(l.source(6), MixSource::Blend { frame: 1, a: 6, b: None });
    assert_eq!(l.source(9), MixSource::Blend { frame: 2, a: 9, b: None });
}

#[test]
fn every_output_sample_has_one_source() {
    let l = Mixer::layout(37, 29, 11, 17, 3);
    let n = l.output_len();
    let mut next_b = 0;
    for k in 0..n {
        match l.source(k) {
            MixSource::SoloA(i) => assert_eq!(i, k),
            MixSource::Blend { a, b, frame } => {
                assert_eq!(a, k);
                assert!(a < 37);
                assert!(frame < l.frame_count);
                if let Some(b) = b {
                    assert_eq!(b, next_b);
                }
                next_b += 1;
            }
            MixSource::SoloB(i) => {
                assert_eq!(i, next_b);
                next_b += 1;
            }
        }
    }
    assert_eq!(next_b, 29.max(l.frame_count * 3));
}
