//! Musical notes: pitch classes, octaves and note names such as "A4" or "C#3".

use vstd::prelude::*;

verus! {

/// The pitch class of a MIDI note, 0 (C) up to 11 (B), for every MIDI number,
/// negative ones included (Euclidean remainder).
pub open spec fn pitch_class(midi: int) -> int {
    midi % 12
}

/// The octave number of a MIDI note in scientific pitch notation: middle C
/// (MIDI 60) is in octave 4 and the number goes up at each C, below MIDI 0
/// too (the quotient rounds down), so MIDI -1 is in octave -2.
pub open spec fn octave_of(midi: int) -> int {
    midi / 12 - 1
}

/// The name of a pitch class in sharps: C, C#, D, D#, E, F, F#, G, G#, A, A#, B.
pub open spec fn pitch_class_name(pc: int) -> Seq<char> {
    if pc == 0 {
        seq!['C']
    } else if pc == 1 {
        seq!['C', '#']
    } else if pc == 2 {
        seq!['D']
    } else if pc == 3 {
        seq!['D', '#']
    } else if pc == 4 {
        seq!['E']
    } else if pc == 5 {
        seq!['F']
    } else if pc == 6 {
        seq!['F', '#']
    } else if pc == 7 {
        seq!['G']
    } else if pc == 8 {
        seq!['G', '#']
    } else if pc == 9 {
        seq!['A']
    } else if pc == 10 {
        seq!['A', '#']
    } else {
        seq!['B']
    }
}

/// Whether a pitch class is a natural note (a white key): C, D, E, F, G, A, B.
pub open spec fn is_natural_class(pc: int) -> bool {
    pc == 0 || pc == 2 || pc == 4 || pc == 5 || pc == 7 || pc == 9 || pc == 11
}

/// The numeric value of a decimal digit character.
pub open spec fn digit_value(c: char) -> int {
    (c as int) - ('0' as int)
}

/// The value of a string of decimal digits, most significant first.
pub open spec fn digits_value(text: Seq<char>) -> int
    decreases text.len(),
{
    if text.len() == 0 {
        0
    } else {
        10 * digits_value(text.drop_last()) + digit_value(text.last())
    }
}

/// The letter after `c` in the cycle of note letters A, B, ..., G, A.
pub open spec fn next_letter(c: char) -> char {
    if c == 'G' {
        'A'
    } else {
        ((c as int) + 1) as char
    }
}

/// The decimal digit character for `d` in `0..10`.
pub open spec fn digit_char(d: int) -> char {
    if d == 0 {
        '0'
    } else if d == 1 {
        '1'
    } else if d == 2 {
        '2'
    } else if d == 3 {
        '3'
    } else if d == 4 {
        '4'
    } else if d == 5 {
        '5'
    } else if d == 6 {
        '6'
    } else if d == 7 {
        '7'
    } else if d == 8 {
        '8'
    } else {
        '9'
    }
}

/// The decimal representation of a natural number, without leading zeros.
pub open spec fn decimal(n: nat) -> Seq<char>
    decreases n,
{
    if n < 10 {
        seq![digit_char(n as int)]
    } else {
        decimal(n / 10).push(digit_char((n % 10) as int))
    }
}

/// The decimal representation of an integer, with a leading `-` when it is negative.
pub open spec fn signed_decimal(i: int) -> Seq<char> {
    if i < 0 {
        seq!['-'] + decimal((-i) as nat)
    } else {
        decimal(i as nat)
    }
}

/// The name of a MIDI note: its pitch class name followed by its octave number.
pub open spec fn note_name(midi: int) -> Seq<char> {
    pitch_class_name(pitch_class(midi)) + signed_decimal(octave_of(midi))
}

/// The pitch class of a MIDI note, in `0..12`.
pub fn midi_pitch_class(midi: i32) -> (pc: usize)
    ensures
        pc == pitch_class(midi as int),
        pc < 12,
        (midi as int - pc as int) % 12 == 0,
{
    let r: i32 = midi % 12;
    if r < 0 {
        (r + 12) as usize
    } else {
        r as usize
    }
}

/// The octave number of a MIDI note (C4 = MIDI 60 is in octave 4).
pub fn midi_octave(midi: i32) -> (octave: i32)
    ensures
        octave == octave_of(midi as int),
        12 * (octave as int + 1) <= midi as int,
        (midi as int) < 12 * (octave as int + 2),
{
    let quotient: i32 = midi / 12;
    if midi % 12 < 0 {
        quotient - 2
    } else {
        quotient - 1
    }
}

/// Whether the pitch class `pc` is a natural note (a white key on the keyboard).
pub fn is_natural(pc: usize) -> (natural: bool)
    ensures
        natural == is_natural_class(pc as int),
{
    pc == 0 || pc == 2 || pc == 4 || pc == 5 || pc == 7 || pc == 9 || pc == 11
}

/// The name of the pitch class `pc`, in sharps ("C", "C#", ... "B").
pub fn pitch_class_label(pc: usize) -> (label: &'static str)
    requires
        pc < 12,
    ensures
        label@ == pitch_class_name(pc as int),
{
    proof {
        reveal_strlit("C");
        reveal_strlit("C#");
        reveal_strlit("D");
        reveal_strlit("D#");
        reveal_strlit("E");
        reveal_strlit("F");
        reveal_strlit("F#");
        reveal_strlit("G");
        reveal_strlit("G#");
        reveal_strlit("A");
        reveal_strlit("A#");
        reveal_strlit("B");
    }
    if pc == 0 {
        "C"
    } else if pc == 1 {
        "C#"
    } else if pc == 2 {
        "D"
    } else if pc == 3 {
        "D#"
    } else if pc == 4 {
        "E"
    } else if pc == 5 {
        "F"
    } else if pc == 6 {
        "F#"
    } else if pc == 7 {
        "G"
    } else if pc == 8 {
        "G#"
    } else if pc == 9 {
        "A"
    } else if pc == 10 {
        "A#"
    } else {
        "B"
    }
}

fn digit_text(d: u32) -> (text: &'static str)
    requires
        d < 10,
    ensures
        text@ == seq![digit_char(d as int)],
{
    proof {
        reveal_strlit("0");
        reveal_strlit("1");
        reveal_strlit("2");
        reveal_strlit("3");
        reveal_strlit("4");
        reveal_strlit("5");
        reveal_strlit("6");
        reveal_strlit("7");
        reveal_strlit("8");
        reveal_strlit("9");
    }
    if d == 0 {
        "0"
    } else if d == 1 {
        "1"
    } else if d == 2 {
        "2"
    } else if d == 3 {
        "3"
    } else if d == 4 {
        "4"
    } else if d == 5 {
        "5"
    } else if d == 6 {
        "6"
    } else if d == 7 {
        "7"
    } else if d == 8 {
        "8"
    } else {
        "9"
    }
}

/// Appends the decimal representation of `n` to `text`.
fn append_decimal(text: &mut String, n: u32)
    ensures
        final(text)@ == old(text)@ + decimal(n as nat),
    decreases n,
{
    if n >= 10 {
        append_decimal(text, n / 10);
    }
    text.append(digit_text(n % 10));
    proof {
        if n >= 10 {
            assert(decimal(n as nat) == decimal((n / 10) as nat).push(digit_char((n % 10) as int)));
        }
    }
}

/// Converts a MIDI note number to a name like "A4" or "C#3".
pub fn midi_to_note_name(midi: i32) -> (name: String)
    ensures
        name@ == note_name(midi as int),
{
    let pc = midi_pitch_class(midi);
    let octave = midi_octave(midi);
    let mut name = String::from_str(pitch_class_label(pc));
    if octave < 0 {
        name.append("-");
        let magnitude: u32 = (0i64 - octave as i64) as u32;
        append_decimal(&mut name, magnitude);
        proof {
            reveal_strlit("-");
        }
    } else {
        append_decimal(&mut name, octave as u32);
    }
    name
}

/// Twelve semitones up is the same note one octave higher: the pitch class
/// is kept and the octave number goes up by one.
pub proof fn lemma_octave_up(midi: int)
    ensures
        pitch_class(midi + 12) == pitch_class(midi),
        octave_of(midi + 12) == octave_of(midi) + 1,
        note_name(midi + 12) == pitch_class_name(pitch_class(midi)) + signed_decimal(octave_of(midi) + 1),
{
    assert((midi + 12) % 12 == midi % 12);
    assert((midi + 12) / 12 == midi / 12 + 1);
}

/// A decimal representation is never empty and never starts with `-` or `#`.
proof fn lemma_decimal_shape(n: nat)
    ensures
        decimal(n).len() >= 1,
        decimal(n)[0] != '-',
        decimal(n)[0] != '#',
        n >= 10 ==> decimal(n).len() >= 2,
    decreases n,
{
    if n >= 10 {
        lemma_decimal_shape(n / 10);
    }
}

/// Distinct natural numbers have distinct decimal representations.
proof fn lemma_decimal_injective(a: nat, b: nat)
    requires
        decimal(a) == decimal(b),
    ensures
        a == b,
    decreases a,
{
    lemma_decimal_shape(a);
    lemma_decimal_shape(b);
    if a >= 10 && b >= 10 {
        let da = decimal(a);
        let db = decimal(b);
        assert(da.last() == digit_char((a % 10) as int));
        assert(db.last() == digit_char((b % 10) as int));
        assert(da.drop_last() =~= decimal(a / 10));
        assert(db.drop_last() =~= decimal(b / 10));
        lemma_decimal_injective(a / 10, b / 10);
        assert(a == 10 * (a / 10) + a % 10);
        assert(b == 10 * (b / 10) + b % 10);
    } else if a < 10 && b < 10 {
        assert(decimal(a)[0] == digit_char(a as int));
        assert(decimal(b)[0] == digit_char(b as int));
    }
}

/// Distinct integers have distinct signed decimal representations.
proof fn lemma_signed_decimal_injective(a: int, b: int)
    requires
        signed_decimal(a) == signed_decimal(b),
    ensures
        a == b,
{
    let sa = signed_decimal(a);
    let sb = signed_decimal(b);
    if a < 0 && b < 0 {
        assert(sa.drop_first() =~= decimal((-a) as nat));
        assert(sb.drop_first() =~= decimal((-b) as nat));
        lemma_decimal_injective((-a) as nat, (-b) as nat);
    } else if a >= 0 && b >= 0 {
        lemma_decimal_injective(a as nat, b as nat);
    } else if a < 0 {
        lemma_decimal_shape(b as nat);
        assert(sa[0] == '-');
    } else {
        lemma_decimal_shape(a as nat);
        assert(sb[0] == '-');
    }
}

/// A signed decimal representation is never empty and never starts with `#`.
proof fn lemma_signed_decimal_shape(i: int)
    ensures
        signed_decimal(i).len() >= 1,
        signed_decimal(i)[0] != '#',
{
    if i < 0 {
        lemma_decimal_shape((-i) as nat);
    } else {
        lemma_decimal_shape(i as nat);
    }
}

/// Distinct pitch classes have distinct names.
proof fn lemma_pitch_class_name_injective(a: int, b: int)
    requires
        0 <= a < 12,
        0 <= b < 12,
        pitch_class_name(a) == pitch_class_name(b),
    ensures
        a == b,
{
    let na = pitch_class_name(a);
    let nb = pitch_class_name(b);
    assert(na.len() == nb.len());
    assert(na[0] == nb[0]);
}

/// A note name names one note: distinct MIDI numbers get distinct names.
pub proof fn lemma_note_name_injective(m1: int, m2: int)
    requires
        note_name(m1) == note_name(m2),
    ensures
        m1 == m2,
{
    let p1 = pitch_class_name(pitch_class(m1));
    let p2 = pitch_class_name(pitch_class(m2));
    let s1 = signed_decimal(octave_of(m1));
    let s2 = signed_decimal(octave_of(m2));
    lemma_signed_decimal_shape(octave_of(m1));
    lemma_signed_decimal_shape(octave_of(m2));
    let n = note_name(m1);
    assert(n == p1 + s1);
    assert(n == p2 + s2);
    if p1.len() == 1 && p2.len() == 2 {
        assert(n[1] == s1[0]);
        assert(n[1] == p2[1]);
        assert(false);
    } else if p1.len() == 2 && p2.len() == 1 {
        assert(n[1] == s2[0]);
        assert(n[1] == p1[1]);
        assert(false);
    }
    assert(p1.len() == p2.len());
    assert(p1 =~= n.subrange(0, p1.len() as int));
    assert(p2 =~= n.subrange(0, p2.len() as int));
    assert(s1 =~= n.subrange(p1.len() as int, n.len() as int));
    assert(s2 =~= n.subrange(p2.len() as int, n.len() as int));
    lemma_signed_decimal_injective(octave_of(m1), octave_of(m2));
    assert(p1 == p2);
    lemma_pitch_class_name_injective(pitch_class(m1), pitch_class(m2));
    assert(m1 == 12 * (m1 / 12) + m1 % 12);
    assert(m2 == 12 * (m2 / 12) + m2 % 12);
}

/// A MIDI number is twelve times its octave number plus one, plus its pitch
/// class: the pitch class counts semitones up from the C that starts the
/// octave, so it lies in `0..12`, and the octave number changes only at a C.
pub proof fn lemma_midi_is_octave_and_pitch_class(midi: int)
    ensures
        0 <= pitch_class(midi) < 12,
        midi == 12 * (octave_of(midi) + 1) + pitch_class(midi),
        12 * (octave_of(midi) + 1) <= midi < 12 * (octave_of(midi) + 2),
{
    assert(midi == 12 * (midi / 12) + midi % 12);
}

/// Notes that share an octave number are the twelve from one C up to the B
/// above it, and their pitch classes count them off from 0.
pub proof fn lemma_same_octave(m1: int, m2: int)
    requires
        octave_of(m1) == octave_of(m2),
    ensures
        m1 - m2 == pitch_class(m1) - pitch_class(m2),
        -12 < m1 - m2 < 12,
{
    lemma_midi_is_octave_and_pitch_class(m1);
    lemma_midi_is_octave_and_pitch_class(m2);
}

/// The decimal representation uses only the characters `0` to `9`, has no
/// leading zero, and its digits read back, in base ten, as the number.
pub proof fn lemma_decimal_reads_back(n: nat)
    ensures
        decimal(n).len() >= 1,
        forall|i: int| 0 <= i < decimal(n).len() ==> 0 <= #[trigger] digit_value(decimal(n)[i]) < 10,
        digits_value(decimal(n)) == n,
        decimal(n)[0] == '0' ==> n == 0,
        n < 10 ==> decimal(n).len() == 1,
    decreases n,
{
    if n >= 10 {
        lemma_decimal_reads_back(n / 10);
        let d = decimal(n);
        assert(d.drop_last() =~= decimal(n / 10));
        assert(d.last() == digit_char((n % 10) as int));
        assert(digit_value(d.last()) == n % 10);
        assert(n == 10 * (n / 10) + n % 10);
        assert(digits_value(d) == 10 * digits_value(d.drop_last()) + digit_value(d.last()));
        assert forall|i: int| 0 <= i < d.len() implies 0 <= #[trigger] digit_value(d[i]) < 10 by {
            if i < d.len() - 1 {
                assert(d[i] == decimal(n / 10)[i]);
            }
        }
        assert(d[0] == decimal(n / 10)[0]);
    } else {
        let d = decimal(n);
        assert(d[0] == digit_char(n as int));
        assert(digit_value(d[0]) == n);
        assert(d.drop_last() =~= Seq::<char>::empty());
        assert(digits_value(d.drop_last()) == 0);
        assert(d.last() == d[0]);
        assert(digits_value(d) == 10 * digits_value(d.drop_last()) + digit_value(d.last()));
    }
}

/// The signed decimal representation of a negative number is `-` followed by
/// the digits of its magnitude; that of any other number is just its digits.
/// Either way the digits read back as the magnitude.
pub proof fn lemma_signed_decimal_reads_back(i: int)
    ensures
        i < 0 ==> signed_decimal(i)[0] == '-' && digits_value(signed_decimal(i).drop_first()) == -i,
        i >= 0 ==> digits_value(signed_decimal(i)) == i && signed_decimal(i)[0] != '-',
{
    if i < 0 {
        lemma_decimal_reads_back((-i) as nat);
        assert(signed_decimal(i).drop_first() =~= decimal((-i) as nat));
    } else {
        lemma_decimal_reads_back(i as nat);
        lemma_decimal_shape(i as nat);
    }
}

/// Pitch-class names follow the piano keyboard: a natural note (white key)
/// is named by a single letter, and going up from C the naturals take the
/// letters in order, C D E F G A B, each the letter after the previous
/// natural's; every other pitch class (black key) is the note below it
/// with a sharp.
pub proof fn lemma_pitch_class_names(pc: int)
    requires
        0 <= pc < 12,
    ensures
        pitch_class_name(0) == seq!['C'],
        is_natural_class(pc) ==> pitch_class_name(pc).len() == 1,
        !is_natural_class(pc) ==> pc > 0 && is_natural_class(pc - 1) && pitch_class_name(pc)
            == pitch_class_name(pc - 1).push('#'),
        is_natural_class(pc) && pc > 0 && is_natural_class(pc - 1) ==> pitch_class_name(pc)[0]
            == next_letter(pitch_class_name(pc - 1)[0]),
        is_natural_class(pc) && pc > 1 && !is_natural_class(pc - 1) ==> pitch_class_name(pc)[0]
            == next_letter(pitch_class_name(pc - 2)[0]),
{
    assert(pitch_class_name(0) =~= seq!['C']);
    if !is_natural_class(pc) {
        assert(pitch_class_name(pc) =~= pitch_class_name(pc - 1).push('#'));
    }
}

/// A note name is the pitch class name followed by the octave number
/// written in base ten, with a leading `-` for octaves below zero.
pub proof fn lemma_note_name_parts(midi: int)
    ensures
        ({
            let name = note_name(midi);
            let letters = pitch_class_name(pitch_class(midi));
            let number = name.subrange(letters.len() as int, name.len() as int);
            let octave = octave_of(midi);
            &&& name.subrange(0, letters.len() as int) == letters
            &&& octave < 0 ==> number[0] == '-' && digits_value(number.drop_first()) == -octave
            &&& octave >= 0 ==> number[0] != '-' && digits_value(number) == octave
        }),
{
    let name = note_name(midi);
    let letters = pitch_class_name(pitch_class(midi));
    lemma_signed_decimal_reads_back(octave_of(midi));
    assert(name.subrange(0, letters.len() as int) =~= letters);
    assert(name.subrange(letters.len() as int, name.len() as int) =~= signed_decimal(octave_of(midi)));
}

} // verus!
