use midilang::cell::Cell;
use midilang::parser::MidiInstructionKind::{IncrementCell, InputCell, Loop, MovePointer, OutputCell};
use midilang::parser::{
    c_major, clone_program, parse, parse_chord, program_key, MParseError, MidiASTBuilder,
    MidiInstruction, Position,
};
use midilang::smf::NoteEvent;

#[test]
fn parser_parse_chord_c_major_no_args() {
    let key = |xx| parse_chord(xx, &c_major);
    let tonic = Vec::from([0]);
    let supertonic = Vec::from([2]);
    let mediant = Vec::from([4]);
    let subdominant = Vec::from([5]);
    let dominant = Vec::from([7]);
    let submediant = Vec::from([9]);
    let leading_tone = Vec::from([11]);
    let non_diatonic = Vec::from([8]);
    assert_eq!(key(tonic).unwrap(), MidiInstruction::new_close_loop());
    assert_eq!(key(supertonic).unwrap(), MidiInstruction::new_move(-1));
    assert_eq!(key(mediant).unwrap(), MidiInstruction::new_move(1));
    assert_eq!(key(subdominant).unwrap(), MidiInstruction::new_inc(Cell(-1)));
    assert_eq!(key(dominant).unwrap(), MidiInstruction::new_open_loop());
    assert_eq!(key(submediant).unwrap(), MidiInstruction::new_inc(Cell(1)));
    assert_eq!(key(leading_tone).unwrap(), MidiInstruction::new_input());
    assert_eq!(key(non_diatonic).unwrap_err(), MParseError::NonDiatonic);
}

#[test]
fn parse_chord_c_major_args() {
    let key = |xx| parse_chord(xx, &c_major);
    // ignores arguments
    let tonic_chord = Vec::from([0, 12, 16, 18]);
    let supertonic_chord = Vec::from([26, 33, 38]); // 10000b = 16
    let mediant_chord = Vec::from([40, 44, 46, 48]); // 1010b = 10
    let subdominant_chord = Vec::from([17, 29, 31]); // 10b = 2
    // ignores arguments
    let dominant_chord = Vec::from([7, 100]);
    let submediant_chord = Vec::from([9, 27, 30]); // 100b = 4
    // leading tone with 1 other note = Write
    // leading tone with >=2 other notes = Read
    let leading_tone_octave = Vec::from([11, 23]);
    let leading_tone_chord = Vec::from([11, 23, 29]);
    // ignores arguments
    let non_diatonic = Vec::from([8, 10, 22]);
    assert_eq!(key(tonic_chord).unwrap(), MidiInstruction::new_close_loop());
    assert_eq!(key(supertonic_chord).unwrap(), MidiInstruction::new_move(-16));
    assert_eq!(key(mediant_chord).unwrap(), MidiInstruction::new_move(10));
    assert_eq!(key(subdominant_chord).unwrap(), MidiInstruction::new_inc(Cell(-2)));
    assert_eq!(key(dominant_chord).unwrap(), MidiInstruction::new_open_loop());
    assert_eq!(key(submediant_chord).unwrap(), MidiInstruction::new_inc(Cell(4)));
    assert_eq!(key(leading_tone_octave).unwrap(), MidiInstruction::new_input());
    assert_eq!(key(leading_tone_chord).unwrap(), MidiInstruction::new_output());
    assert_eq!(key(non_diatonic).unwrap_err(), MParseError::NonDiatonic);
}

#[test]
fn build_no_loops() {
    let mut mast_builder = MidiASTBuilder::new();
    assert!(mast_builder.push(MidiInstruction::new_inc(Cell(10))).is_ok());
    assert!(mast_builder.push(MidiInstruction::new_move(1)).is_ok());
    assert!(mast_builder.push(MidiInstruction::new_inc(Cell(-5))).is_ok());
    assert!(mast_builder.push(MidiInstruction::new_move(1)).is_ok());
    assert!(mast_builder.push(MidiInstruction::new_inc(Cell(15))).is_ok());
    assert!(mast_builder.push(MidiInstruction::new_move(1)).is_ok());
    assert!(mast_builder.push(MidiInstruction::new_move(1)).is_ok());
    assert!(mast_builder.push(MidiInstruction::new_move(1)).is_ok());
    assert!(mast_builder.push(MidiInstruction::new_inc(Cell(3))).is_ok());
    assert!(mast_builder.push(MidiInstruction::new_move(1)).is_ok());
    assert!(mast_builder.push(MidiInstruction::new_inc(Cell(4))).is_ok());
    match mast_builder.into_mast() {
        Err(_) => panic!(),
        Ok(prog) => {
            assert_eq!(prog.len(), 11);
            assert_eq!(mast_builder.size(), 11);
        }
    }
}

#[test]
fn build_simple_loop() {
    let mut mast_builder = MidiASTBuilder::new();
    assert!(mast_builder.push(MidiInstruction::new_open_loop()).is_ok());
    assert!(mast_builder.push(MidiInstruction::new_move(12)).is_ok());
    assert!(mast_builder.push(MidiInstruction::new_inc(Cell(12))).is_ok());
    assert!(mast_builder.push(MidiInstruction::new_move(12)).is_ok());
    assert!(mast_builder.push(MidiInstruction::new_inc(Cell(-1))).is_ok());
    assert!(mast_builder.push(MidiInstruction::new_close_loop()).is_ok());
    match mast_builder.into_mast() {
        Err(_) => panic!(),
        Ok(mut prog) => {
            assert_eq!(prog.len(), 1);
            assert_eq!(mast_builder.size(), 6);
            assert_eq!(prog.pop().unwrap().position.unwrap(), Position::new(0, 5));
        }
    }
}

#[test]
fn build_nested_loop() {
    let mut mast_builder = MidiASTBuilder::new();
    assert!(mast_builder.push(MidiInstruction::new_inc(Cell(4))).is_ok());

    assert!(mast_builder.push(MidiInstruction::new_open_loop()).is_ok());
    assert!(mast_builder.push(MidiInstruction::new_move(1)).is_ok());
    assert!(mast_builder.push(MidiInstruction::new_inc(Cell(2))).is_ok());

    assert!(mast_builder.push(MidiInstruction::new_open_loop()).is_ok());
    assert!(mast_builder.push(MidiInstruction::new_move(1)).is_ok());
    assert!(mast_builder.push(MidiInstruction::new_inc(Cell(1))).is_ok());
    assert!(mast_builder.push(MidiInstruction::new_move(-1)).is_ok());
    assert!(mast_builder.push(MidiInstruction::new_inc(Cell(-1))).is_ok());
    assert!(mast_builder.push(MidiInstruction::new_close_loop()).is_ok());

    assert!(mast_builder.push(MidiInstruction::new_move(-1)).is_ok());
    assert!(mast_builder.push(MidiInstruction::new_inc(Cell(-1))).is_ok());
    assert!(mast_builder.push(MidiInstruction::new_close_loop()).is_ok());
    match mast_builder.into_mast() {
        Err(e) => panic!("{:?}", e),
        Ok(mut prog) => {
            assert_eq!(prog.len(), 2);
            assert_eq!(mast_builder.size(), 13);
            if let MidiInstruction {
                position: pos,
                instruction: Loop { body: mut loop_body },
            } = prog.pop().unwrap()
            {
                assert_eq!(pos, Some(Position::new(1, 12)));
                assert_eq!(loop_body.len(), 5);
                loop_body.pop().unwrap();
                loop_body.pop().unwrap();
                let MidiInstruction { position: pos2, instruction: _ } = loop_body.pop().unwrap();
                assert_eq!(pos2, Some(Position::new(4, 9)));
            }
        }
    }
}

fn stamped(mut instruction: MidiInstruction, start: usize, end: usize) -> MidiInstruction {
    instruction.set_position(Position::new(start, end));
    instruction
}

fn closed_loop(start: usize, end: usize, body: Vec<MidiInstruction>) -> MidiInstruction {
    MidiInstruction { position: Some(Position::new(start, end)), instruction: Loop { body } }
}

/// The chord that spells `amount` above `base`, under the lowest note `low`.
fn chord_of(low: u8, base: u8, amount: u8) -> Vec<u8> {
    let mut chord = vec![low, base];
    for bit in 0..7u8 {
        if amount & (1 << bit) != 0 {
            chord.push(base + 1 + bit);
        }
    }
    chord
}

#[test]
fn every_amount_round_trips_under_every_diatonic_root() {
    for octave in 0..3u8 {
        for amount in 1..=127u8 {
            let signed = amount as i8;
            let low = |class: u8| class + 12 * octave;
            let decode = |class: u8| parse_chord(chord_of(low(class), 60, amount), &c_major);
            assert_eq!(decode(0).unwrap(), MidiInstruction::new_close_loop());
            assert_eq!(decode(2).unwrap(), MidiInstruction::new_move(-(signed as isize)));
            assert_eq!(decode(4).unwrap(), MidiInstruction::new_move(signed as isize));
            assert_eq!(decode(5).unwrap(), MidiInstruction::new_inc(Cell(-signed)));
            assert_eq!(decode(7).unwrap(), MidiInstruction::new_open_loop());
            assert_eq!(decode(9).unwrap(), MidiInstruction::new_inc(Cell(signed)));
            let expected = if amount == 1 {
                MidiInstruction::new_input()
            } else {
                MidiInstruction::new_output()
            };
            assert_eq!(decode(11).unwrap(), expected);
        }
    }
}

#[test]
fn every_other_root_is_non_diatonic() {
    for note in 0..=127u8 {
        let class = note % 12;
        let diatonic = matches!(class, 0 | 2 | 4 | 5 | 7 | 9 | 11);
        let lone = parse_chord(vec![note], &c_major);
        assert_eq!(lone.is_ok(), diatonic);
        if !diatonic {
            assert_eq!(lone.unwrap_err(), MParseError::NonDiatonic);
            let chord = parse_chord(vec![note, 127], &c_major);
            assert_eq!(chord.unwrap_err(), MParseError::NonDiatonic);
        }
    }
}

#[test]
fn lone_root_has_amount_one() {
    for octave in 0..10u8 {
        let at = |class: u8| vec![class + 12 * octave];
        assert_eq!(parse_chord(at(2), &c_major).unwrap(), MidiInstruction::new_move(-1));
        assert_eq!(parse_chord(at(4), &c_major).unwrap(), MidiInstruction::new_move(1));
        assert_eq!(parse_chord(at(5), &c_major).unwrap(), MidiInstruction::new_inc(Cell(-1)));
        assert_eq!(parse_chord(at(9), &c_major).unwrap(), MidiInstruction::new_inc(Cell(1)));
        assert_eq!(parse_chord(at(11), &c_major).unwrap(), MidiInstruction::new_input());
    }
}

#[test]
fn base_note_alone_leaves_amount_one() {
    assert_eq!(parse_chord(vec![9, 40], &c_major).unwrap(), MidiInstruction::new_inc(Cell(1)));
    assert_eq!(parse_chord(vec![9, 40, 40], &c_major).unwrap(), MidiInstruction::new_inc(Cell(1)));
}

#[test]
fn wide_gaps_wrap_and_wider_gaps_are_ignored() {
    // gap 6: 64
    assert_eq!(parse_chord(vec![9, 20, 27], &c_major).unwrap(), MidiInstruction::new_inc(Cell(64)));
    // gap 7: 128 wraps to -128
    assert_eq!(
        parse_chord(vec![9, 20, 28], &c_major).unwrap(),
        MidiInstruction::new_inc(Cell(-128))
    );
    assert_eq!(parse_chord(vec![4, 20, 28], &c_major).unwrap(), MidiInstruction::new_move(-128));
    assert_eq!(parse_chord(vec![2, 20, 28], &c_major).unwrap(), MidiInstruction::new_move(128));
    assert_eq!(
        parse_chord(vec![5, 20, 28], &c_major).unwrap(),
        MidiInstruction::new_inc(Cell(-128))
    );
    // gap 8: 256 wraps to 0
    assert_eq!(parse_chord(vec![9, 20, 29], &c_major).unwrap(), MidiInstruction::new_inc(Cell(0)));
    assert_eq!(parse_chord(vec![11, 20, 29], &c_major).unwrap(), MidiInstruction::new_output());
    // gap 9 and beyond: the note and all that follow are left out
    assert_eq!(parse_chord(vec![9, 20, 30], &c_major).unwrap(), MidiInstruction::new_inc(Cell(1)));
    assert_eq!(
        parse_chord(vec![9, 20, 22, 30, 31], &c_major).unwrap(),
        MidiInstruction::new_inc(Cell(2))
    );
}

#[test]
fn repeated_notes_add_their_weight_again() {
    assert_eq!(
        parse_chord(vec![9, 27, 30, 30], &c_major).unwrap(),
        MidiInstruction::new_inc(Cell(8))
    );
    assert_eq!(
        parse_chord(vec![9, 27, 34, 34], &c_major).unwrap(),
        MidiInstruction::new_inc(Cell(-128))
    );
}

#[test]
fn notes_equal_to_the_pitch_class_of_the_root_are_skipped() {
    // the second 2 equals the pitch class and cannot be the base
    assert_eq!(parse_chord(vec![2, 2, 9], &c_major).unwrap(), MidiInstruction::new_move(-1));
    assert_eq!(parse_chord(vec![2, 2, 9, 11], &c_major).unwrap(), MidiInstruction::new_move(-2));
    // one octave up the lowest note differs from its pitch class: its
    // double is the base
    assert_eq!(
        parse_chord(vec![26, 26, 33], &c_major).unwrap(),
        MidiInstruction::new_move(-64)
    );
}

#[test]
fn flat_program_has_one_position_per_leaf() {
    let mut builder = MidiASTBuilder::new();
    for i in 0..50i8 {
        let leaf = match i % 4 {
            0 => MidiInstruction::new_inc(Cell(i)),
            1 => MidiInstruction::new_move(i as isize),
            2 => MidiInstruction::new_output(),
            _ => MidiInstruction::new_input(),
        };
        assert_eq!(builder.push(leaf), Ok(()));
    }
    assert_eq!(builder.size(), 50);
    let program = builder.into_mast().unwrap();
    assert_eq!(program.len(), 50);
    for (i, instruction) in program.iter().enumerate() {
        assert_eq!(instruction.position, Some(Position::new(i, i)));
        let expected = match i % 4 {
            0 => IncrementCell { amount: Cell(i as i8) },
            1 => MovePointer { amount: i as isize },
            2 => OutputCell,
            _ => InputCell,
        };
        assert_eq!(instruction.instruction, expected);
    }
}

#[test]
fn simple_loop_spans_its_markers() {
    let mut builder = MidiASTBuilder::new();
    builder.push(MidiInstruction::new_open_loop()).unwrap();
    builder.push(MidiInstruction::new_inc(Cell(3))).unwrap();
    builder.push(MidiInstruction::new_output()).unwrap();
    builder.push(MidiInstruction::new_move(-2)).unwrap();
    builder.push(MidiInstruction::new_close_loop()).unwrap();
    let program = builder.into_mast().unwrap();
    assert_eq!(
        program,
        vec![closed_loop(
            0,
            4,
            vec![
                stamped(MidiInstruction::new_inc(Cell(3)), 1, 1),
                stamped(MidiInstruction::new_output(), 2, 2),
                stamped(MidiInstruction::new_move(-2), 3, 3),
            ]
        )]
    );
}

#[test]
fn nested_loop_spans_nest() {
    let mut builder = MidiASTBuilder::new();
    builder.push(MidiInstruction::new_inc(Cell(1))).unwrap();
    builder.push(MidiInstruction::new_open_loop()).unwrap();
    builder.push(MidiInstruction::new_move(1)).unwrap();
    builder.push(MidiInstruction::new_open_loop()).unwrap();
    builder.push(MidiInstruction::new_input()).unwrap();
    builder.push(MidiInstruction::new_close_loop()).unwrap();
    builder.push(MidiInstruction::new_close_loop()).unwrap();
    assert_eq!(builder.size(), 7);
    let program = builder.into_mast().unwrap();
    assert_eq!(
        program,
        vec![
            stamped(MidiInstruction::new_inc(Cell(1)), 0, 0),
            closed_loop(
                1,
                6,
                vec![
                    stamped(MidiInstruction::new_move(1), 2, 2),
                    closed_loop(3, 5, vec![stamped(MidiInstruction::new_input(), 4, 4)]),
                ]
            ),
        ]
    );
}

#[test]
fn nested_loop_of_three_leaves() {
    // X, open, Y, open, Z, close, close
    let mut builder = MidiASTBuilder::new();
    builder.push(MidiInstruction::new_output()).unwrap();
    builder.push(MidiInstruction::new_open_loop()).unwrap();
    builder.push(MidiInstruction::new_open_loop()).unwrap();
    builder.push(MidiInstruction::new_inc(Cell(-7))).unwrap();
    builder.push(MidiInstruction::new_move(7)).unwrap();
    builder.push(MidiInstruction::new_close_loop()).unwrap();
    builder.push(MidiInstruction::new_close_loop()).unwrap();
    let program = builder.into_mast().unwrap();
    assert_eq!(program.len(), 2);
    assert_eq!(program[1].position, Some(Position::new(1, 6)));
    match &program[1].instruction {
        Loop { body } => {
            assert_eq!(body.len(), 1);
            assert_eq!(body[0].position, Some(Position::new(2, 5)));
        }
        other => panic!("{:?}", other),
    }
}

#[test]
fn unclosed_loop_is_reported_when_the_program_is_asked_for() {
    let mut builder = MidiASTBuilder::new();
    assert_eq!(builder.push(MidiInstruction::new_open_loop()), Ok(()));
    assert_eq!(
        builder.into_mast().unwrap_err(),
        MParseError::UnclosedLoop(vec![Position::new(0, 0)])
    );
}

#[test]
fn every_unclosed_loop_is_reported_outermost_first() {
    let mut builder = MidiASTBuilder::new();
    builder.push(MidiInstruction::new_inc(Cell(1))).unwrap();
    builder.push(MidiInstruction::new_open_loop()).unwrap();
    builder.push(MidiInstruction::new_open_loop()).unwrap();
    builder.push(MidiInstruction::new_close_loop()).unwrap();
    builder.push(MidiInstruction::new_move(1)).unwrap();
    builder.push(MidiInstruction::new_open_loop()).unwrap();
    builder.push(MidiInstruction::new_open_loop()).unwrap();
    assert_eq!(
        builder.into_mast().unwrap_err(),
        MParseError::UnclosedLoop(vec![
            Position::new(1, 1),
            Position::new(5, 5),
            Position::new(6, 6)
        ])
    );
}

#[test]
fn dangling_close_is_refused_at_once() {
    let mut builder = MidiASTBuilder::new();
    assert_eq!(
        builder.push(MidiInstruction::new_close_loop()),
        Err(MParseError::DanglingLoop(Position::new(0, 0)))
    );
    // the refused marker used up no index
    assert_eq!(builder.size(), 0);
    assert_eq!(builder.into_mast().unwrap(), vec![]);
}

#[test]
fn dangling_close_after_a_closed_loop() {
    let mut builder = MidiASTBuilder::new();
    builder.push(MidiInstruction::new_open_loop()).unwrap();
    builder.push(MidiInstruction::new_close_loop()).unwrap();
    builder.push(MidiInstruction::new_inc(Cell(2))).unwrap();
    assert_eq!(
        builder.push(MidiInstruction::new_close_loop()),
        Err(MParseError::DanglingLoop(Position::new(3, 3)))
    );
    assert_eq!(builder.size(), 3);
}

#[test]
fn a_loop_with_a_position_opens_whatever_its_body() {
    let marker = closed_loop(9, 9, vec![MidiInstruction::new_input()]);
    let mut builder = MidiASTBuilder::new();
    builder.push(marker).unwrap();
    builder.push(MidiInstruction::new_close_loop()).unwrap();
    assert_eq!(builder.into_mast().unwrap(), vec![closed_loop(0, 1, vec![])]);
}

#[test]
fn default_builder_is_empty() {
    let builder = MidiASTBuilder::default();
    assert_eq!(builder.size(), 0);
    assert_eq!(builder.into_mast().unwrap(), vec![]);
}

#[test]
fn clone_program_copies_the_whole_tree() {
    let program = vec![
        stamped(MidiInstruction::new_inc(Cell(1)), 0, 0),
        closed_loop(1, 4, vec![closed_loop(2, 3, vec![])]),
    ];
    assert_eq!(clone_program(&program), program);
}

fn on(key: u8) -> NoteEvent {
    NoteEvent::NoteOn { key }
}

fn off(key: u8) -> NoteEvent {
    NoteEvent::NoteOff { key }
}

#[test]
fn parse_without_tracks_fails() {
    assert_eq!(parse(vec![]).unwrap_err(), MParseError::NoTracks);
}

#[test]
fn parse_of_empty_tracks_is_the_empty_program() {
    assert_eq!(parse(vec![vec![], vec![]]).unwrap(), vec![]);
}

#[test]
fn parse_groups_notes_that_sound_together() {
    // 9 with 30 pressed before 27: the chord [9, 27, 30] adds 4
    let track = vec![
        on(9),
        on(30),
        NoteEvent::Other,
        on(27),
        off(30),
        off(9),
        off(27),
        on(11),
        off(11),
        on(11),
        on(15),
        on(18),
        off(18),
        off(15),
        off(11),
    ];
    assert_eq!(
        parse(vec![vec![], track]).unwrap(),
        vec![
            stamped(MidiInstruction::new_inc(Cell(4)), 0, 0),
            stamped(MidiInstruction::new_input(), 1, 1),
            stamped(MidiInstruction::new_output(), 2, 2),
        ]
    );
}

#[test]
fn parse_builds_loops_across_tracks() {
    let first = vec![on(7), off(7), on(5), off(5)];
    let second = vec![on(4), off(4), on(0), off(0)];
    assert_eq!(
        parse(vec![first, second]).unwrap(),
        vec![closed_loop(
            0,
            3,
            vec![
                stamped(MidiInstruction::new_inc(Cell(-1)), 1, 1),
                stamped(MidiInstruction::new_move(1), 2, 2),
            ]
        )]
    );
}

#[test]
fn parse_carries_held_notes_into_the_next_track() {
    // 40 is still held when the first track ends and joins the chord of
    // the second track
    let first = vec![on(40)];
    let second = vec![on(9), off(9)];
    assert_eq!(
        parse(vec![first, second]).unwrap(),
        vec![stamped(MidiInstruction::new_inc(Cell(1)), 0, 0)]
    );
    let third = vec![on(9), on(43), off(9), off(43)];
    assert_eq!(
        parse(vec![vec![on(40)], third]).unwrap(),
        vec![stamped(MidiInstruction::new_inc(Cell(4)), 0, 0)]
    );
}

#[test]
fn parse_ignores_releases_that_do_not_bring_the_count_to_zero() {
    let track = vec![off(9), off(9), on(9), off(9)];
    assert_eq!(parse(vec![track]).unwrap(), vec![]);
}

#[test]
fn parse_reports_each_error() {
    assert_eq!(parse(vec![vec![on(8), off(8)]]).unwrap_err(), MParseError::NonDiatonic);
    assert_eq!(
        parse(vec![vec![on(9), off(9), on(0), off(0)]]).unwrap_err(),
        MParseError::DanglingLoop(Position::new(1, 1))
    );
    assert_eq!(
        parse(vec![vec![on(7), off(7), on(9), off(9), on(7), off(7)]]).unwrap_err(),
        MParseError::UnclosedLoop(vec![Position::new(0, 0), Position::new(2, 2)])
    );
    // the first error wins
    assert_eq!(
        parse(vec![vec![on(0), off(0), on(8), off(8)]]).unwrap_err(),
        MParseError::DanglingLoop(Position::new(0, 0))
    );
}

#[test]
fn program_key_sorts_the_notes_first() {
    assert_eq!(program_key(vec![30, 9, 27]).unwrap(), MidiInstruction::new_inc(Cell(4)));
    assert_eq!(program_key(vec![9, 27, 30]).unwrap(), MidiInstruction::new_inc(Cell(4)));
    assert_eq!(program_key(vec![38, 33, 26]).unwrap(), MidiInstruction::new_move(-16));
    assert_eq!(program_key(vec![48, 40, 46, 44]).unwrap(), MidiInstruction::new_move(10));
    assert_eq!(program_key(vec![29, 11, 23]).unwrap(), MidiInstruction::new_output());
    assert_eq!(program_key(vec![23, 11]).unwrap(), MidiInstruction::new_input());
    assert_eq!(program_key(vec![100, 7]).unwrap(), MidiInstruction::new_open_loop());
    assert_eq!(program_key(vec![0]).unwrap(), MidiInstruction::new_close_loop());
    assert_eq!(program_key(vec![22, 8, 10]).unwrap_err(), MParseError::NonDiatonic);
    // the lowest note is the root, wherever it stands
    assert_eq!(program_key(vec![60, 62, 5]).unwrap(), MidiInstruction::new_inc(Cell(-2)));
}

#[test]
fn clones_are_equal_to_what_they_copy() {
    let instruction = closed_loop(0, 3, vec![stamped(MidiInstruction::new_inc(Cell(2)), 1, 1)]);
    assert_eq!(instruction.clone(), instruction);
    assert_eq!(instruction.instruction.clone(), instruction.instruction);
}
