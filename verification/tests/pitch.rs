use jonotune::pitch::PitchDetector;

#[test]
fn detector_defaults() {
    let detector = PitchDetector::new(44100);
    assert_eq!(detector.sample_rate(), 44100);
    assert_eq!(detector.min_freq(), 80);
    assert_eq!(detector.max_freq(), 1000);
}

#[test]
fn min_samples_hold_one_period_of_the_lowest_pitch() {
    assert_eq!(PitchDetector::new(44100).min_samples(), 552);
    assert_eq!(PitchDetector::new(48000).min_samples(), 600);
    assert_eq!(PitchDetector::new(8000).min_samples(), 100);
    assert_eq!(PitchDetector::new(79).min_samples(), 1);
    assert_eq!(PitchDetector::new(81).min_samples(), 2);
    assert_eq!(PitchDetector::new(0).min_samples(), 0);
    assert_eq!(PitchDetector::new(u32::MAX).min_samples(), 53687092);
}
