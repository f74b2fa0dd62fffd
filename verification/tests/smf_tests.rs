use midilang::cell::Cell;
use midilang::parser::{MParseError, MidiInstruction, Position};
use midilang::smf::{reader_overflows, NoteEvent};
use midilang::{
    brainf_events, compile_smf, exit_status, parse_smf, read_smf, MReadError, NOTE_CHANNEL,
    NOTE_DELTA, NOTE_VELOCITY, TICKS_PER_BEAT,
};
use midly::num::{u15, u28, u4, u7};
use midly::{Format, Header, MetaMessage, MidiMessage, Smf, Timing, TrackEvent, TrackEventKind};

fn note(on: bool, key: u8) -> TrackEvent<'static> {
    let key = u7::from(key);
    let vel = u7::from(NOTE_VELOCITY);
    TrackEvent {
        delta: u28::from(NOTE_DELTA),
        kind: TrackEventKind::Midi {
            channel: u4::from(NOTE_CHANNEL),
            message: if on { MidiMessage::NoteOn { key, vel } } else { MidiMessage::NoteOff { key, vel } },
        },
    }
}

fn file_of(tracks: Vec<Vec<TrackEvent<'static>>>) -> Vec<u8> {
    let mut smf = Smf::new(Header::new(Format::Parallel, Timing::Metrical(u15::from(TICKS_PER_BEAT))));
    smf.tracks = tracks;
    let mut bytes = Vec::new();
    smf.write_std(&mut bytes).unwrap();
    bytes
}

fn stamped(mut instruction: MidiInstruction, at: usize) -> MidiInstruction {
    instruction.set_position(Position::new(at, at));
    instruction
}

#[test]
fn read_smf_reduces_events_to_notes() {
    let other = TrackEvent {
        delta: u28::from(0),
        kind: TrackEventKind::Midi {
            channel: u4::from(0),
            message: MidiMessage::Controller { controller: u7::from(7), value: u7::from(100) },
        },
    };
    let meta = TrackEvent { delta: u28::from(0), kind: TrackEventKind::Meta(MetaMessage::EndOfTrack) };
    let bytes = file_of(vec![
        vec![meta],
        vec![note(true, 9), other, note(true, 127), note(false, 127), note(false, 9), meta],
    ]);
    assert_eq!(
        read_smf(&bytes).unwrap(),
        vec![
            vec![NoteEvent::Other],
            vec![
                NoteEvent::NoteOn { key: 9 },
                NoteEvent::Other,
                NoteEvent::NoteOn { key: 127 },
                NoteEvent::NoteOff { key: 127 },
                NoteEvent::NoteOff { key: 9 },
                NoteEvent::Other,
            ],
        ]
    );
}

#[test]
fn read_smf_rejects_what_is_no_midi_file() {
    assert!(matches!(read_smf(b"not a midi file"), Err(MReadError::Malformed(_))));
    assert!(matches!(read_smf(b""), Err(MReadError::Malformed(_))));
    assert!(matches!(parse_smf(b"MThd"), Err(MReadError::Malformed(_))));
    assert!(matches!(compile_smf(b"RIFF"), Err(MReadError::Malformed(_))));
}

#[test]
fn parse_smf_reads_the_program_of_a_file() {
    let bytes = file_of(vec![
        vec![],
        vec![note(true, 9), note(true, 27), note(true, 30), note(false, 30), note(false, 27), note(false, 9)],
    ]);
    assert_eq!(
        parse_smf(&bytes).unwrap().unwrap(),
        vec![stamped(MidiInstruction::new_inc(Cell(4)), 0)]
    );
    assert_eq!(compile_smf(&bytes), Ok(0));
}

#[test]
fn compile_smf_tells_programs_from_errors() {
    let good = file_of(vec![vec![note(true, 7), note(false, 7), note(true, 0), note(false, 0)]]);
    assert_eq!(compile_smf(&good), Ok(0));
    let dangling = file_of(vec![vec![note(true, 0), note(false, 0)]]);
    assert_eq!(compile_smf(&dangling), Ok(1));
    assert_eq!(
        parse_smf(&dangling).unwrap().unwrap_err(),
        MParseError::DanglingLoop(Position::new(0, 0))
    );
    let non_diatonic = file_of(vec![vec![note(true, 1), note(false, 1)]]);
    assert_eq!(compile_smf(&non_diatonic), Ok(1));
    let no_tracks = file_of(vec![]);
    assert_eq!(compile_smf(&no_tracks), Ok(1));
    assert_eq!(parse_smf(&no_tracks).unwrap().unwrap_err(), MParseError::NoTracks);
}

#[test]
fn exit_status_is_zero_for_a_program_only() {
    assert_eq!(exit_status(&Ok(vec![])), 0);
    assert_eq!(exit_status(&Ok(vec![MidiInstruction::new_input()])), 0);
    assert_eq!(exit_status(&Err(MParseError::NoTracks)), 1);
    assert_eq!(exit_status(&Err(MParseError::NonDiatonic)), 1);
    assert_eq!(exit_status(&Err(MParseError::UnclosedLoop(vec![]))), 1);
    assert_eq!(exit_status(&Err(MParseError::DanglingLoop(Position::new(2, 2)))), 1);
}

fn on(key: u8) -> NoteEvent {
    NoteEvent::NoteOn { key }
}

fn off(key: u8) -> NoteEvent {
    NoteEvent::NoteOff { key }
}

#[test]
fn brainf_events_spell_each_command() {
    assert_eq!(brainf_events(""), vec![]);
    assert_eq!(brainf_events("]"), vec![on(0), off(0)]);
    assert_eq!(brainf_events("<"), vec![on(2), off(2)]);
    assert_eq!(brainf_events(">"), vec![on(4), off(4)]);
    assert_eq!(brainf_events("-"), vec![on(5), off(5)]);
    assert_eq!(brainf_events("["), vec![on(7), off(7)]);
    assert_eq!(brainf_events("+"), vec![on(9), off(9)]);
    assert_eq!(brainf_events(","), vec![on(11), off(11)]);
    assert_eq!(brainf_events("."), vec![on(11), on(15), on(18), off(18), off(15), off(11)]);
    assert_eq!(brainf_events("a b\n\u{266b}"), vec![]);
    assert_eq!(
        brainf_events("+ x[-]"),
        vec![on(9), off(9), on(7), off(7), on(5), off(5), on(0), off(0)]
    );
}

#[test]
fn a_source_text_comes_back_as_its_program() {
    let program = midilang::parser::parse(vec![vec![], brainf_events("+>[-.,<]")]).unwrap();
    assert_eq!(
        program,
        vec![
            stamped(MidiInstruction::new_inc(Cell(1)), 0),
            stamped(MidiInstruction::new_move(1), 1),
            MidiInstruction {
                position: Some(Position::new(2, 7)),
                instruction: midilang::parser::MidiInstructionKind::Loop {
                    body: vec![
                        stamped(MidiInstruction::new_inc(Cell(-1)), 3),
                        stamped(MidiInstruction::new_output(), 4),
                        stamped(MidiInstruction::new_input(), 5),
                        stamped(MidiInstruction::new_move(-1), 6),
                    ],
                },
            },
        ]
    );
}

#[test]
fn a_written_file_reads_back_as_its_events() {
    let events = brainf_events("+.");
    let track = events
        .iter()
        .map(|event| match event {
            NoteEvent::NoteOn { key } => note(true, *key),
            NoteEvent::NoteOff { key } => note(false, *key),
            NoteEvent::Other => unreachable!(),
        })
        .collect();
    let bytes = file_of(vec![vec![], track]);
    assert_eq!(read_smf(&bytes).unwrap(), vec![vec![], events]);
}

#[test]
fn count_events_adds_the_tracks_up() {
    assert_eq!(midilang::count_events(&vec![]), Some(0));
    assert_eq!(midilang::count_events(&vec![vec![], vec![]]), Some(0));
    assert_eq!(
        midilang::count_events(&vec![vec![on(1), off(1)], vec![], vec![NoteEvent::Other]]),
        Some(3)
    );
}

fn header_chunk(format: u16, timing: [u8; 2]) -> Vec<u8> {
    let mut bytes = b"MThd".to_vec();
    bytes.extend([0, 0, 0, 6]);
    bytes.extend(format.to_be_bytes());
    bytes.extend([0, 1]);
    bytes.extend(timing);
    bytes
}

fn chunk(name: &[u8; 4], data: &[u8]) -> Vec<u8> {
    let mut bytes = name.to_vec();
    bytes.extend((data.len() as u32).to_le_bytes());
    bytes.extend(data);
    if data.len() % 2 == 1 {
        bytes.push(0);
    }
    bytes
}

fn wrapped(chunks: Vec<Vec<u8>>) -> Vec<u8> {
    let mut form = b"RMID".to_vec();
    for part in chunks {
        form.extend(part);
    }
    chunk(b"RIFF", &form)
}

#[test]
fn a_frame_rate_that_cannot_be_negated_is_refused() {
    let bytes = [0x4D, 0x54, 0x68, 0x64, 0x00, 0x00, 0x00, 0x06, 0x00, 0x00, 0x00, 0x01, 0x80, 0x00];
    assert!(reader_overflows(&bytes));
    assert_eq!(read_smf(&bytes), Err(MReadError::Malformed("invalid smpte fps".to_string())));
    assert!(matches!(parse_smf(&bytes), Err(MReadError::Malformed(_))));
    assert!(matches!(compile_smf(&bytes), Err(MReadError::Malformed(_))));
    for format in 0..=2 {
        assert!(reader_overflows(&header_chunk(format, [0x80, 0x7f])));
        assert!(matches!(
            read_smf(&header_chunk(format, [0x80, 0x7f])),
            Err(MReadError::Malformed(_))
        ));
    }
}

#[test]
fn a_frame_rate_that_cannot_be_negated_is_found_inside_a_wrapper() {
    let header = header_chunk(1, [0x80, 0x00]);
    let plain = wrapped(vec![chunk(b"data", &header)]);
    assert!(reader_overflows(&plain));
    assert!(matches!(read_smf(&plain), Err(MReadError::Malformed(_))));
    // behind a chunk of odd length with its padding, and behind a chunk
    // of another name inside the data
    let mut data = b"JUNK".to_vec();
    data.extend([0, 0, 0, 3, 1, 2, 3]);
    data.extend(&header);
    let padded = wrapped(vec![chunk(b"LIST", &[9, 9, 9]), chunk(b"data", &data)]);
    assert!(reader_overflows(&padded));
    assert!(matches!(read_smf(&padded), Err(MReadError::Malformed(_))));
    // a header chunk that is cut off behind its timing field
    let mut cut = b"MThd".to_vec();
    cut.extend([0, 0, 1, 0, 0, 2, 0, 1, 0x80, 0]);
    assert!(reader_overflows(&cut));
    assert!(matches!(read_smf(&cut), Err(MReadError::Malformed(_))));
    // with a frame rate of 25 in the same places the reader takes all three
    for bytes in [plain, padded, cut] {
        let at = bytes.iter().rposition(|byte| *byte == 0x80).unwrap();
        let mut fine = bytes.clone();
        fine[at] = 0xE7;
        assert!(!reader_overflows(&fine));
        assert_eq!(read_smf(&fine), Ok(vec![]));
    }
}

/// A small generator of numbers that look random and are the same on
/// every run.
fn next(seed: &mut u64) -> u64 {
    *seed ^= *seed << 13;
    *seed ^= *seed >> 7;
    *seed ^= *seed << 17;
    *seed
}

#[test]
fn the_reader_returns_on_whatever_it_is_given() {
    let valid = file_of(vec![
        vec![],
        vec![note(true, 9), note(true, 27), note(false, 27), note(false, 9)],
    ]);
    let starts: Vec<Vec<u8>> = vec![
        valid.clone(),
        wrapped(vec![chunk(b"LIST", &[1, 2, 3]), chunk(b"data", &valid)]),
        header_chunk(1, [0xE7, 0x28]),
        header_chunk(2, [0x80, 0x00]),
    ];
    let mut seed: u64 = 0x9E37_79B9_7F4A_7C15;
    let mut refused = 0;
    for round in 0..60_000 {
        let mut bytes = starts[round % starts.len()].clone();
        let changes = 1 + next(&mut seed) % 4;
        for _ in 0..changes {
            let at = (next(&mut seed) % bytes.len() as u64) as usize;
            match next(&mut seed) % 4 {
                0 => bytes[at] = next(&mut seed) as u8,
                1 => bytes[at] = [0x00, 0x7f, 0x80, 0xff][(next(&mut seed) % 4) as usize],
                2 => bytes.truncate(at),
                _ => bytes.insert(at, next(&mut seed) as u8),
            }
            if bytes.is_empty() {
                break;
            }
        }
        if reader_overflows(&bytes) {
            refused += 1;
        }
        match read_smf(&bytes) {
            Ok(tracks) => assert!(!reader_overflows(&bytes) && tracks.len() < 70_000),
            Err(error) => assert!(matches!(error, MReadError::Malformed(_))),
        }
    }
    assert!(refused > 0);
}

#[test]
fn other_headers_go_to_the_reader() {
    // a frame rate of 25 with 40 ticks
    let timecode = header_chunk(1, [0xE7, 0x28]);
    assert!(!reader_overflows(&timecode));
    assert_eq!(read_smf(&timecode), Ok(vec![]));
    // ticks per beat
    assert!(!reader_overflows(&header_chunk(0, [0x01, 0xE0])));
    assert_eq!(read_smf(&header_chunk(0, [0x01, 0xE0])), Ok(vec![]));
    // the reader rejects these before it comes to the timing field
    let format = header_chunk(3, [0x80, 0x00]);
    assert!(!reader_overflows(&format));
    assert!(matches!(read_smf(&format), Err(MReadError::Malformed(_))));
    let short = [0x4D, 0x54, 0x68, 0x64, 0x00, 0x00, 0x00, 0x05, 0x00, 0x00, 0x00, 0x01, 0x80];
    assert!(!reader_overflows(&short));
    assert!(matches!(read_smf(&short), Err(MReadError::Malformed(_))));
    let mut track_first = b"MTrk".to_vec();
    track_first.extend([0, 0, 0, 0]);
    track_first.extend(header_chunk(1, [0x80, 0x00]));
    let no_header = wrapped(vec![chunk(b"data", &track_first)]);
    assert!(!reader_overflows(&no_header));
    assert!(matches!(read_smf(&no_header), Err(MReadError::Malformed(_))));
    // the byte 0x80 in the low half of the field is nothing special
    assert!(!reader_overflows(&header_chunk(1, [0x00, 0x80])));
    assert_eq!(read_smf(&header_chunk(1, [0x00, 0x80])), Ok(vec![]));
    // an unreadable frame rate that the reader can negate
    let minus_one = header_chunk(1, [0x81, 0x00]);
    assert!(!reader_overflows(&minus_one));
    assert!(matches!(read_smf(&minus_one), Err(MReadError::Malformed(_))));
}

#[test]
fn a_wrapped_file_reads_like_the_file_inside() {
    let inside = file_of(vec![vec![note(true, 9), note(false, 9)]]);
    let outside = wrapped(vec![chunk(b"LIST", &[1, 2, 3]), chunk(b"data", &inside)]);
    assert!(!reader_overflows(&outside));
    assert_eq!(read_smf(&outside), read_smf(&inside));
    assert_eq!(read_smf(&outside).unwrap(), vec![vec![on(9), off(9)]]);
}

#[test]
fn a_later_header_that_cannot_be_negated_is_refused() {
    let bytes = [
        0x4D, 0x54, 0x68, 0x64, 0x00, 0x00, 0x00, 0x06, 0x00, 0x01, 0x00, 0x01, 0x01, 0xE0, 0x4D,
        0x54, 0x68, 0x64, 0x00, 0x00, 0x00, 0x06, 0x00, 0x00, 0x00, 0x00, 0x80, 0x00,
    ];
    assert!(reader_overflows(&bytes));
    assert_eq!(read_smf(&bytes), Err(MReadError::Malformed("invalid smpte fps".to_string())));
    assert!(matches!(parse_smf(&bytes), Err(MReadError::Malformed(_))));
    assert!(matches!(compile_smf(&bytes), Err(MReadError::Malformed(_))));
}

fn be_chunk(name: &[u8; 4], data: &[u8]) -> Vec<u8> {
    let mut bytes = name.to_vec();
    bytes.extend((data.len() as u32).to_be_bytes());
    bytes.extend(data);
    bytes
}

fn joined(parts: &[Vec<u8>]) -> Vec<u8> {
    parts.iter().flatten().copied().collect()
}

#[test]
fn a_later_header_is_found_wherever_the_reader_comes_by_it() {
    let good = header_chunk(1, [0x01, 0xE0]);
    let bad = header_chunk(0, [0x80, 0x00]);
    let track = be_chunk(b"MTrk", &[0x0a, 0x91, 9, 127, 0x0a, 0x81, 9, 127]);
    let broken_track = be_chunk(b"MTrk", &[0xff, 0xff, 0xff]);
    let other = be_chunk(b"XFIH", &[1, 2, 3]);
    let refused = |bytes: &Vec<u8>| {
        assert!(reader_overflows(bytes));
        assert!(matches!(read_smf(bytes), Err(MReadError::Malformed(_))));
    };
    // behind a track, behind a track that breaks off, behind a chunk of
    // another name, behind a header that counts frames
    refused(&joined(&[good.clone(), track.clone(), bad.clone()]));
    refused(&joined(&[good.clone(), broken_track.clone(), bad.clone()]));
    refused(&joined(&[good.clone(), other.clone(), track.clone(), bad.clone(), track.clone()]));
    for high in [0xE8, 0xE7, 0xE3, 0xE2, 0x00, 0x7f] {
        refused(&joined(&[good.clone(), header_chunk(2, [high, 4]), bad.clone()]));
    }
    // inside a wrapper
    let inside = joined(&[good.clone(), track.clone(), bad.clone()]);
    refused(&wrapped(vec![chunk(b"LIST", &[1]), chunk(b"data", &inside)]));
    // a header chunk that is longer than its six bytes
    let mut long = be_chunk(b"MThd", &[0, 1, 0, 1, 0x01, 0xE0, 7, 7, 7]);
    long.extend(&bad);
    refused(&long);
}

#[test]
fn a_later_header_behind_the_end_of_reading_is_left_alone() {
    let good = header_chunk(1, [0x01, 0xE0]);
    let bad = header_chunk(0, [0x80, 0x00]);
    let track = be_chunk(b"MTrk", &[0x0a, 0x91, 9, 127, 0x0a, 0x81, 9, 127]);
    let read = vec![vec![on(9), off(9)]];
    // the reader stops at a header that it rejects and keeps what it has
    let stoppers = [
        header_chunk(3, [0x01, 0xE0]),
        header_chunk(0x0100, [0x01, 0xE0]),
        header_chunk(1, [0x81, 0x00]),
        header_chunk(1, [0xE9, 0x00]),
        header_chunk(1, [0xFF, 0x00]),
        be_chunk(b"MThd", &[0, 1, 0, 1, 0x80]),
        be_chunk(b"MThd", &[]),
    ];
    for stopper in stoppers {
        let bytes = joined(&[good.clone(), track.clone(), stopper, bad.clone(), track.clone()]);
        assert!(!reader_overflows(&bytes));
        assert_eq!(read_smf(&bytes), Ok(read.clone()));
    }
    // fewer than eight bytes are no chunk, and a chunk may swallow the header
    let mut tail = joined(&[good.clone(), track.clone()]);
    tail.extend(&bad[..7]);
    assert!(!reader_overflows(&tail));
    assert_eq!(read_smf(&tail), Ok(read.clone()));
    let swallowed = joined(&[good.clone(), be_chunk(b"XFIH", &bad), track.clone()]);
    assert!(!reader_overflows(&swallowed));
    assert_eq!(read_smf(&swallowed), Ok(read.clone()));
    let mut greedy = good.clone();
    greedy.extend(b"XFIH");
    greedy.extend([0xff, 0xff, 0xff, 0xff]);
    greedy.extend(&bad);
    assert!(!reader_overflows(&greedy));
    assert_eq!(read_smf(&greedy), Ok(vec![]));
    // a first header that is rejected, and a track before any header
    let first = joined(&[header_chunk(5, [0, 1]), bad.clone()]);
    assert!(!reader_overflows(&first));
    assert!(matches!(read_smf(&first), Err(MReadError::Malformed(_))));
    let trackfirst = joined(&[track.clone(), bad.clone()]);
    assert!(!reader_overflows(&trackfirst));
    assert!(matches!(read_smf(&trackfirst), Err(MReadError::Malformed(_))));
}

fn some_chunk(seed: &mut u64) -> Vec<u8> {
    let highs = [0x00, 0x01, 0x7f, 0x80, 0x80, 0x81, 0xE2, 0xE3, 0xE7, 0xE8, 0xE9, 0xff];
    let mut data: Vec<u8> = Vec::new();
    let name: [u8; 4] = match next(seed) % 8 {
        0 | 1 | 2 => {
            let format = [0u8, 1, 2, 2, 1, 3][(next(seed) % 6) as usize];
            data.extend([(next(seed) % 9 == 0) as u8, format, 0, 1]);
            data.push(highs[(next(seed) % highs.len() as u64) as usize]);
            data.push(next(seed) as u8);
            match next(seed) % 6 {
                0 => data.truncate((next(seed) % 6) as usize),
                1 => data.extend([7, 7, 7]),
                _ => {}
            }
            *b"MThd"
        }
        3 | 4 => {
            for _ in 0..next(seed) % 12 {
                let byte = match next(seed) % 4 {
                    0 => next(seed) as u8,
                    1 => [0x80, 0x90, 0xff, 0xf0, 0xf7, 0x2f, 0x51, 0x54, 0x58, 0x59][(next(seed)
                        % 10) as usize],
                    _ => (next(seed) % 128) as u8,
                };
                data.push(byte);
            }
            *b"MTrk"
        }
        5 => *b"RIFF",
        6 => *b"data",
        _ => [next(seed) as u8, b'T', b'h', b'd'],
    };
    let mut bytes = name.to_vec();
    let said = match next(seed) % 8 {
        0 => next(seed) as u32,
        1 => data.len() as u32 + 1,
        2 => (data.len() as u32).saturating_sub(1),
        _ => data.len() as u32,
    };
    bytes.extend(said.to_be_bytes());
    bytes.extend(data);
    bytes
}

#[test]
fn the_reader_returns_on_files_of_many_chunks() {
    let mut seed: u64 = 0x2545_F491_4F6C_DD1D;
    let mut refused = 0;
    let mut read = 0;
    for round in 0..120_000 {
        let mut bytes = header_chunk([0, 1, 2, 1][round % 4], [[0x01, 0xE7, 0x00, 0xE2][round % 4], 0x60]);
        if round % 7 == 0 {
            bytes = some_chunk(&mut seed);
        }
        for _ in 0..next(&mut seed) % 6 {
            bytes.extend(some_chunk(&mut seed));
        }
        if next(&mut seed) % 5 == 0 {
            let cut = (next(&mut seed) % (bytes.len() as u64 + 1)) as usize;
            bytes.truncate(cut);
        }
        if next(&mut seed) % 4 == 0 {
            let mut parts = Vec::new();
            for _ in 0..next(&mut seed) % 3 {
                parts.push(chunk(b"LIST", &bytes[..(next(&mut seed) % 4) as usize % (bytes.len() + 1)]));
            }
            parts.push(chunk(b"data", &bytes));
            bytes = wrapped(parts);
            if next(&mut seed) % 6 == 0 {
                let cut = (next(&mut seed) % (bytes.len() as u64 + 1)) as usize;
                bytes.truncate(cut);
            }
        }
        let overflows = reader_overflows(&bytes);
        match read_smf(&bytes) {
            Ok(_) => {
                assert!(!overflows);
                read += 1;
            }
            Err(error) => assert!(matches!(error, MReadError::Malformed(_))),
        }
        if overflows {
            refused += 1;
        }
    }
    assert!(refused > 1000);
    assert!(read > 1000);
}
