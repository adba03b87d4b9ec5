use jonotune::window::SampleWindow;

#[test]
fn window_fills_and_overlaps() {
    let mut window = SampleWindow::new(4);
    assert_eq!(window.min_samples(), 4);
    assert!(!window.has_full_window());
    window.extend(&[1u32, 2, 3]);
    assert_eq!(window.len(), 3);
    assert!(!window.has_full_window());
    window.extend(&[4, 5, 6]);
    assert!(window.has_full_window());
    assert_eq!(window.latest_window(), &[3, 4, 5, 6]);
    window.advance();
    assert_eq!(window.len(), 2);
    assert!(!window.has_full_window());
    window.extend(&[7, 8]);
    assert_eq!(window.latest_window(), &[5, 6, 7, 8]);
}

#[test]
fn analysis_loop_ends_below_one_window() {
    let mut window = SampleWindow::new(5);
    window.extend(&(0..40u32).collect::<Vec<_>>());
    let mut analysed = Vec::new();
    while window.has_full_window() {
        analysed.push(window.latest_window().to_vec());
        window.advance();
    }
    assert_eq!(analysed, vec![(35..40u32).collect::<Vec<_>>()]);
    assert_eq!(window.len(), 2);
    window.trim_backlog();
    assert_eq!(window.len(), 2);
}

#[test]
fn backlog_is_cut_to_two_windows() {
    let mut window = SampleWindow::new(3);
    window.extend(&(0..13u32).collect::<Vec<_>>());
    window.trim_backlog();
    assert_eq!(window.len(), 6);
    assert_eq!(window.latest_window(), &[10, 11, 12]);

    let mut exact = SampleWindow::new(3);
    exact.extend(&(0..12u32).collect::<Vec<_>>());
    exact.trim_backlog();
    assert_eq!(exact.len(), 12);
}

#[test]
fn window_of_one_sample_keeps_nothing() {
    let mut window = SampleWindow::new(1);
    window.extend(&[9u8]);
    assert_eq!(window.latest_window(), &[9]);
    window.advance();
    assert_eq!(window.len(), 0);
}

#[test]
fn push_chunk_analyses_at_most_one_window() {
    let mut window = SampleWindow::new(4);
    assert_eq!(window.push_chunk(&[1u32, 2, 3]), None);
    assert_eq!(window.len(), 3);
    assert_eq!(window.push_chunk(&[4, 5]), Some(vec![2, 3, 4, 5]));
    assert_eq!(window.len(), 2);
}

#[test]
fn push_chunk_takes_the_newest_window_of_a_long_chunk() {
    let mut window = SampleWindow::new(5);
    let chunk: Vec<u32> = (0..40).collect();
    assert_eq!(window.push_chunk(&chunk), Some((35..40).collect::<Vec<u32>>()));
    assert_eq!(window.len(), 2);
    assert_eq!(window.push_chunk(&[40, 41]), None);
    assert_eq!(window.push_chunk(&[42]), Some(vec![38, 39, 40, 41, 42]));
    assert_eq!(window.len(), 2);
}
