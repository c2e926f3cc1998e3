use fung_preng_app::analyze::{intro_index, outro_index, outro_window_start, Analyzer};

#[test]
fn analyzer_settings() {
    let a = Analyzer::new(44100, 2);
    assert_eq!(a.sample_rate(), 44100);
    assert_eq!(a.channels(), 2);
    assert_eq!(a.energy_window(), 4410);
    assert!(a.downmixes());
    assert!(!Analyzer::new(8000, 1).downmixes());
}

#[test]
fn intro_is_first_loud_window() {
    assert_eq!(intro_index(&[false, false, true, false, true]), 2);
    assert_eq!(intro_index(&[true]), 0);
    assert_eq!(intro_index(&[false, false]), 2);
    assert_eq!(intro_index(&[]), 0);
}

#[test]
fn outro_is_last_loud_average() {
    assert_eq!(outro_index(&[true, true, false, true, false, false], 0), 3);
    assert_eq!(outro_index(&[true, false, false], 1), 2);
    assert_eq!(outro_index(&[true, true, false], 3), 2);
    assert_eq!(outro_index(&[], 0), 0);
    assert_eq!(outro_window_start(20, 15), 5);
    assert_eq!(outro_window_start(3, 15), 0);
}
