//! A compiler front end for programs written as musical chords: chords are
//! decoded into tape-machine instructions, instructions are nested into a
//! tree, and the tree is lowered into a script for a native code backend.

pub mod cell;
pub mod compiler;
pub mod machine;
pub mod parse;
pub mod parser;
pub mod round_trip;
pub mod smf;
pub mod text;
pub mod utils;

use crate::parser::scan::{event_count, parse_tracks};
use crate::parser::{MParseResult, MidiAST};
use crate::smf::{
    file_tracks, read_tracks, reader_message, reader_overflows, tracks_view, NoteEvent, Track,
};
use vstd::prelude::*;

verus! {

/// Why the bytes of a file gave no tracks.
#[derive(Debug, PartialEq, Eq)]
pub enum MReadError {
    /// The bytes are no standard MIDI file: what the reader said of them,
    /// or why they were kept from the reader.
    Malformed(String),
    /// The file holds more events than the machine can count.
    TooLong,
}

/// How many events the tracks hold together, if the machine can count
/// them. Tracks that can be counted can be parsed.
pub fn count_events(tracks: &Vec<Track>) -> (count: Option<usize>)
    ensures
        match count {
            Some(events) => events == event_count(tracks_view(tracks@)),
            None => event_count(tracks_view(tracks@)) > usize::MAX,
        },
{
    let ghost all = tracks_view(tracks@);
    let mut count: usize = 0;
    let mut t: usize = 0;
    proof {
        assert(all.take(0) =~= Seq::<Seq<NoteEvent>>::empty());
    }
    while t < tracks.len()
        invariant
            t <= tracks.len(),
            all == tracks_view(tracks@),
            count == event_count(all.take(t as int)),
        decreases tracks.len() - t,
    {
        proof {
            crate::parser::scan::lemma_event_count_take(all, t as int);
            crate::parser::scan::lemma_event_count_take(all, t + 1);
        }
        match count.checked_add(tracks[t].len()) {
            Some(sum) => {
                count = sum;
            },
            None => {
                return None;
            },
        }
        t += 1;
    }
    proof {
        assert(all.take(t as int) =~= all);
    }
    Some(count)
}

/// Reads the tracks out of the bytes of a standard MIDI file. A file in
/// which the reader would come to a header chunk whose timing field it
/// cannot negate without overflow is refused before the reader sees it,
/// also where that header is not the first.
pub fn read_smf(raw: &[u8]) -> (result: Result<Vec<Track>, MReadError>)
    ensures
        match file_tracks(raw@) {
            Some(tracks) => if event_count(tracks) <= usize::MAX {
                result matches Ok(read) && tracks_view(read@) == tracks
            } else {
                result == Err::<Vec<Track>, MReadError>(MReadError::TooLong)
            },
            None => result matches Err(MReadError::Malformed(_)),
        },
{
    if reader_overflows(raw) {
        return Err(MReadError::Malformed("invalid smpte fps".to_owned()));
    }
    match read_tracks(raw) {
        Ok(tracks) => match count_events(&tracks) {
            Some(_) => Ok(tracks),
            None => Err(MReadError::TooLong),
        },
        Err(error) => Err(MReadError::Malformed(reader_message(&error))),
    }
}

/// Reads the bytes of a standard MIDI file and parses the program that
/// its tracks encode.
pub fn parse_smf(raw: &[u8]) -> (result: Result<MParseResult<MidiAST>, MReadError>)
    ensures
        match file_tracks(raw@) {
            Some(tracks) => if event_count(tracks) <= usize::MAX {
                &&& result matches Ok(outcome)
                &&& crate::parser::scan::parsed(outcome) == parse_tracks(tracks)
                &&& outcome matches Ok(program) ==> crate::parser::model::well_nested(
                    crate::parser::program_view(program@),
                )
            } else {
                result == Err::<MParseResult<MidiAST>, MReadError>(MReadError::TooLong)
            },
            None => result matches Err(MReadError::Malformed(_)),
        },
{
    match read_smf(raw) {
        Ok(tracks) => Ok(crate::parser::parse(tracks)),
        Err(error) => Err(error),
    }
}

/// The exit status that stands for the outcome of parsing: 0 for a
/// program, 1 for an error.
pub fn exit_status(outcome: &MParseResult<MidiAST>) -> (status: i32)
    ensures
        status == if outcome is Ok {
            0i32
        } else {
            1i32
        },
{
    match outcome {
        Ok(_) => 0,
        Err(_) => 1,
    }
}

/// Checks the bytes of a standard MIDI file: 0 where its tracks encode a
/// program, 1 where they do not.
pub fn compile_smf(raw: &[u8]) -> (result: Result<i32, MReadError>)
    ensures
        match file_tracks(raw@) {
            Some(tracks) => if event_count(tracks) <= usize::MAX {
                result == Ok::<i32, MReadError>(
                    if parse_tracks(tracks) is Ok {
                        0i32
                    } else {
                        1i32
                    },
                )
            } else {
                result == Err::<i32, MReadError>(MReadError::TooLong)
            },
            None => result matches Err(MReadError::Malformed(_)),
        },
{
    match parse_smf(raw) {
        Ok(outcome) => Ok(exit_status(&outcome)),
        Err(error) => Err(error),
    }
}

/// The ticks that pass before every note event of a written file.
pub const NOTE_DELTA: u32 = 10;

/// The channel of every note event of a written file.
pub const NOTE_CHANNEL: u8 = 1;

/// The velocity of every note event of a written file.
pub const NOTE_VELOCITY: u8 = 127;

/// The ticks per beat of a written file.
pub const TICKS_PER_BEAT: u16 = 480;

/// The key that stands for a command of the tape language, for the
/// commands that one note can carry.
pub open spec fn command_key(command: char) -> Option<u8> {
    if command == ']' {
        Some(0u8)
    } else if command == '<' {
        Some(2u8)
    } else if command == '>' {
        Some(4u8)
    } else if command == '-' {
        Some(5u8)
    } else if command == '[' {
        Some(7u8)
    } else if command == '+' {
        Some(9u8)
    } else if command == ',' {
        Some(11u8)
    } else {
        None
    }
}

/// The note events that stand for one character of a source text. A
/// command is one key, pressed and released. The output command shares its
/// key with the input command and is told apart by two more notes that
/// sound with it. Any other character is a comment and gives no event.
pub open spec fn command_events(command: char) -> Seq<NoteEvent> {
    if command == '.' {
        seq![
            NoteEvent::NoteOn { key: 11 },
            NoteEvent::NoteOn { key: 15 },
            NoteEvent::NoteOn { key: 18 },
            NoteEvent::NoteOff { key: 18 },
            NoteEvent::NoteOff { key: 15 },
            NoteEvent::NoteOff { key: 11 },
        ]
    } else {
        match command_key(command) {
            Some(key) => seq![NoteEvent::NoteOn { key }, NoteEvent::NoteOff { key }],
            None => Seq::empty(),
        }
    }
}

/// The note events that stand for a source text: those of its characters,
/// in order.
pub open spec fn source_events(source: Seq<char>) -> Seq<NoteEvent>
    decreases source.len(),
{
    if source.len() == 0 {
        Seq::empty()
    } else {
        source_events(source.drop_last()) + command_events(source.last())
    }
}

/// Appends the note events that stand for one character.
fn push_command(events: &mut Track, inst: char)
    ensures
        final(events)@ == old(events)@ + command_events(inst),
{
    let key: u8 = match inst {
        ']' => 0,
        '<' => 2,
        '>' => 4,
        '-' => 5,
        '[' => 7,
        '+' => 9,
        ',' => 11,
        '.' => {
            events.push(NoteEvent::NoteOn { key: 11 });
            events.push(NoteEvent::NoteOn { key: 15 });
            events.push(NoteEvent::NoteOn { key: 18 });
            events.push(NoteEvent::NoteOff { key: 18 });
            events.push(NoteEvent::NoteOff { key: 15 });
            events.push(NoteEvent::NoteOff { key: 11 });
            assert(events@ =~= old(events)@ + command_events(inst));
            return ;
        },
        _ => {
            assert(events@ =~= old(events)@ + command_events(inst));
            return ;
        },
    };
    events.push(NoteEvent::NoteOn { key });
    events.push(NoteEvent::NoteOff { key });
    assert(events@ =~= old(events)@ + command_events(inst));
}

/// Turns a program of the tape language into the note events of the track
/// that encodes it.
pub fn brainf_events(source: &str) -> (events: Track)
    ensures
        events@ == source_events(source@),
{
    let mut events: Track = Vec::new();
    for inst in it: source.chars()
        invariant
            it.seq() == source@,
            events@ == source_events(source@.take(it.index() as int)),
    {
        proof {
            let upto = it.index() as int;
            assert(source@.take(upto + 1).drop_last() =~= source@.take(upto));
            assert(source@.take(upto + 1).last() == inst);
        }
        push_command(&mut events, inst);
    }
    proof {
        assert(source@.take(source@.len() as int) =~= source@);
    }
    events
}

} // verus!
