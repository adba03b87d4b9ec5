use jonotune::notes::is_natural;
use jonotune::notes::midi_octave;
use jonotune::notes::midi_pitch_class;
use jonotune::notes::midi_to_note_name;
use jonotune::notes::pitch_class_label;

#[test]
fn names_concert_pitch() {
    assert_eq!(midi_to_note_name(69), "A4");
    assert_eq!(midi_to_note_name(60), "C4");
    assert_eq!(midi_to_note_name(61), "C#4");
    assert_eq!(midi_to_note_name(70), "A#4");
    assert_eq!(midi_to_note_name(59), "B3");
    assert_eq!(midi_to_note_name(127), "G9");
    assert_eq!(midi_to_note_name(120), "C9");
}

#[test]
fn names_low_and_negative_notes() {
    assert_eq!(midi_to_note_name(0), "C-1");
    assert_eq!(midi_to_note_name(11), "B-1");
    assert_eq!(midi_to_note_name(12), "C0");
    assert_eq!(midi_to_note_name(-1), "B-2");
    assert_eq!(midi_to_note_name(-12), "C-2");
    assert_eq!(midi_to_note_name(-13), "B-3");
    assert_eq!(midi_to_note_name(-24), "C-3");
}

#[test]
fn names_extreme_notes() {
    assert_eq!(midi_to_note_name(i32::MAX), "G178956969");
    assert_eq!(midi_to_note_name(i32::MIN), "E-178956972");
    assert_eq!(midi_to_note_name(1200), "C99");
}

#[test]
fn pitch_class_wraps_below_zero() {
    assert_eq!(midi_pitch_class(69), 9);
    assert_eq!(midi_pitch_class(-1), 11);
    assert_eq!(midi_pitch_class(-12), 0);
    assert_eq!(midi_pitch_class(i32::MIN), 4);
}

#[test]
fn octave_rounds_down() {
    assert_eq!(midi_octave(60), 4);
    assert_eq!(midi_octave(59), 3);
    assert_eq!(midi_octave(-1), -2);
    assert_eq!(midi_octave(-12), -2);
    assert_eq!(midi_octave(-13), -3);
    assert_eq!(midi_octave(i32::MIN), -178956972);
}

#[test]
fn octave_up_keeps_the_letter() {
    for midi in [0, 5, 60, 69, -1, -6, -12, -20, -100] {
        let low = midi_to_note_name(midi);
        let high = midi_to_note_name(midi + 12);
        let letter: String = low.chars().take_while(|c| !c.is_ascii_digit() && *c != '-').collect();
        assert!(high.starts_with(&letter));
        assert_eq!(midi_octave(midi + 12), midi_octave(midi) + 1);
    }
    assert_ne!(midi_to_note_name(-1), midi_to_note_name(11));
}

#[test]
fn naturals_and_labels() {
    let naturals: Vec<usize> = (0..12).filter(|pc| is_natural(*pc)).collect();
    assert_eq!(naturals, vec![0, 2, 4, 5, 7, 9, 11]);
    let labels: Vec<&str> = (0..12).map(pitch_class_label).collect();
    assert_eq!(labels, vec!["C", "C#", "D", "D#", "E", "F", "F#", "G", "G#", "A", "A#", "B"]);
}

#[test]
fn distinct_notes_have_distinct_names() {
    let names: Vec<String> = (-60..200).map(midi_to_note_name).collect();
    for (i, a) in names.iter().enumerate() {
        for b in &names[i + 1..] {
            assert_ne!(a, b);
        }
    }
}
