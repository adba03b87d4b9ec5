use jonotune::spectrograph::trail_points;
use jonotune::spectrograph::Spectrograph;
use jonotune::spectrograph::TrailPoint;

fn frames(graph: &Spectrograph<u32>) -> Vec<u32> {
    (0..graph.history_len()).map(|age| graph.frame(age)).collect()
}

#[test]
fn new_history_is_blank() {
    let graph = Spectrograph::new(4, 7u32);
    assert_eq!(graph.history_len(), 4);
    assert_eq!(frames(&graph), vec![7, 7, 7, 7]);
    assert_eq!(graph.newest(), 7);
}

#[test]
fn push_slides_the_window() {
    let mut graph = Spectrograph::new(3, 0u32);
    graph.push(1);
    assert_eq!(frames(&graph), vec![0, 0, 1]);
    graph.push(2);
    assert_eq!(frames(&graph), vec![0, 1, 2]);
    graph.push(3);
    assert_eq!(frames(&graph), vec![1, 2, 3]);
    graph.push(4);
    assert_eq!(frames(&graph), vec![2, 3, 4]);
    assert_eq!(graph.newest(), 4);
    assert_eq!(graph.history_len(), 3);
}

#[test]
fn history_keeps_the_last_pushed_frames() {
    let mut graph = Spectrograph::new(5, 0u32);
    for frame in 1..=23u32 {
        graph.push(frame);
    }
    assert_eq!(frames(&graph), vec![19, 20, 21, 22, 23]);
}

#[test]
fn history_of_one_frame() {
    let mut graph = Spectrograph::new(1, (0u8, 0u8));
    graph.push((3, 4));
    graph.push((5, 6));
    assert_eq!(graph.newest(), (5, 6));
    assert_eq!(graph.frame(0), (5, 6));
}

#[test]
fn empty_history_has_no_frames() {
    let graph = Spectrograph::new(0, 0u32);
    assert_eq!(graph.history_len(), 0);
}

#[test]
fn trail_breaks_at_missing_frames() {
    let shown = [false, true, true, false, true, true, true, false];
    let points = trail_points(&shown);
    assert_eq!(
        points,
        vec![
            TrailPoint { age: 1, joined: false },
            TrailPoint { age: 2, joined: true },
            TrailPoint { age: 4, joined: false },
            TrailPoint { age: 5, joined: true },
            TrailPoint { age: 6, joined: true },
        ]
    );
}

#[test]
fn trail_of_all_or_no_frames() {
    assert!(trail_points(&[false, false, false]).is_empty());
    assert!(trail_points(&[]).is_empty());
    let points = trail_points(&[true, true]);
    assert_eq!(points, vec![TrailPoint { age: 0, joined: false }, TrailPoint { age: 1, joined: true }]);
}
