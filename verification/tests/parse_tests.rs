use midilang::parse::MASTNode::{
    DecrementCell, IncrementCell, InputCell, JumpNotZero, JumpZero, MoveLeft, MoveRight,
    OutputCell,
};
use midilang::parse::{c_major, parse, parse_chord, MParseError};
use midilang::smf::NoteEvent;

#[test]
fn parse_parse_chord_c_major_no_args() {
    let key = |xx| parse_chord(xx, &c_major);
    let tonic = Vec::from([0]);
    let supertonic = Vec::from([2]);
    let mediant = Vec::from([4]);
    let subdominant = Vec::from([5]);
    let dominant = Vec::from([7]);
    let submediant = Vec::from([9]);
    let leading_tone = Vec::from([11]);
    let non_diatonic = Vec::from([8]);
    assert_eq!(key(tonic).unwrap(), JumpNotZero);
    assert_eq!(key(supertonic).unwrap(), MoveLeft(1));
    assert_eq!(key(mediant).unwrap(), MoveRight(1));
    assert_eq!(key(subdominant).unwrap(), DecrementCell(1));
    assert_eq!(key(dominant).unwrap(), JumpZero);
    assert_eq!(key(submediant).unwrap(), IncrementCell(1));
    assert_eq!(key(leading_tone).unwrap(), InputCell);
    assert_eq!(key(non_diatonic).unwrap_err(), MParseError::NonDiatonic);
}

#[test]
fn c_major_args() {
    let key = |xx| parse_chord(xx, &c_major);
    // ignores arguments
    let tonic_chord = Vec::from([0, 12, 16, 18]);
    // 10000b = 16
    let supertonic_chord = Vec::from([26, 33, 38]);
    // 1010b = 10
    let mediant_chord = Vec::from([40, 44, 46, 48]);
    // 10b = 2
    let subdominant_chord = Vec::from([17, 29, 31]);
    // ignores arguments
    let dominant_chord = Vec::from([7, 100]);
    // 100b = 4
    let submediant_chord = Vec::from([9, 27, 30]);
    // leading tone with 1 other note = Write
    // leading tone with >=2 other notes = Read
    let leading_tone_octave = Vec::from([11, 23]);
    let leading_tone_chord = Vec::from([11, 23, 29]);
    // ignores arguments
    let non_diatonic = Vec::from([8, 10, 22]);
    assert_eq!(key(tonic_chord).unwrap(), JumpNotZero);
    assert_eq!(key(supertonic_chord).unwrap(), MoveLeft(16));
    assert_eq!(key(mediant_chord).unwrap(), MoveRight(10));
    assert_eq!(key(subdominant_chord).unwrap(), DecrementCell(2));
    assert_eq!(key(dominant_chord).unwrap(), JumpZero);
    assert_eq!(key(submediant_chord).unwrap(), IncrementCell(4));
    assert_eq!(key(leading_tone_octave).unwrap(), InputCell);
    assert_eq!(key(leading_tone_chord).unwrap(), OutputCell);
    assert_eq!(key(non_diatonic).unwrap_err(), MParseError::NonDiatonic);
}

#[test]
fn flat_amounts_reach_32_bits() {
    // gap 31
    assert_eq!(
        parse_chord(vec![9, 20, 52], &c_major).unwrap(),
        IncrementCell(0x8000_0000)
    );
    assert_eq!(
        parse_chord(vec![9, 20, 21, 52], &c_major).unwrap(),
        IncrementCell(0x8000_0001)
    );
    // gap 32: 2^32 wraps to 0
    assert_eq!(parse_chord(vec![9, 20, 53], &c_major).unwrap(), IncrementCell(0));
    assert_eq!(parse_chord(vec![9, 20, 52, 52], &c_major).unwrap(), IncrementCell(0));
    // gap 33 and beyond: the note and all that follow are left out
    assert_eq!(parse_chord(vec![9, 20, 54], &c_major).unwrap(), IncrementCell(1));
    assert_eq!(parse_chord(vec![9, 20, 23, 54, 60], &c_major).unwrap(), IncrementCell(4));
}

fn on(key: u8) -> NoteEvent {
    NoteEvent::NoteOn { key }
}

fn off(key: u8) -> NoteEvent {
    NoteEvent::NoteOff { key }
}

#[test]
fn flat_parse_keeps_the_jumps_as_nodes() {
    let track = vec![
        on(9),
        on(27),
        on(29),
        off(9),
        off(27),
        off(29),
        on(7),
        off(7),
        on(5),
        off(5),
        NoteEvent::Other,
        on(0),
        off(0),
    ];
    assert_eq!(
        parse(vec![vec![], track]).unwrap(),
        vec![IncrementCell(2), JumpZero, DecrementCell(1), JumpNotZero]
    );
}

#[test]
fn flat_parse_reports_each_error() {
    assert_eq!(parse(vec![]).unwrap_err(), MParseError::NoTracks);
    assert_eq!(parse(vec![vec![on(8), off(8)]]).unwrap_err(), MParseError::NonDiatonic);
    // a loop is named by the index of the event that ended its chord
    assert_eq!(
        parse(vec![vec![on(9), off(9), on(0), off(0)]]).unwrap_err(),
        MParseError::DanglingLoop(3)
    );
    assert_eq!(
        parse(vec![vec![on(7), off(7), on(9), off(9), on(7), off(7)]]).unwrap_err(),
        MParseError::UnclosedLoop(5)
    );
    assert_eq!(
        parse(vec![vec![on(7), off(7), on(7), off(7), on(0), off(0)]]).unwrap_err(),
        MParseError::UnclosedLoop(1)
    );
}

#[test]
fn flat_parse_of_empty_tracks_is_the_empty_program() {
    assert_eq!(parse(vec![vec![]]).unwrap(), vec![]);
}
