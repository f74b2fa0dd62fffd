//! Writing a program of the tape language as notes and reading the notes
//! back gives the program.

use crate::cell::wrap_i8;
use crate::parser::chord::{
    base_index, chord_amount, chord_root, decode_chord, weight_sum, widest_gap,
};
use crate::parser::model::{
    build, close_marker, open_marker, BuilderView, InstructionView, KindView, ParseErrorView,
};
use crate::parser::scan::{parse_tracks, with_note, ScanView};
use crate::smf::NoteEvent;
use crate::{command_events, command_key, source_events};
use vstd::arithmetic::power2::lemma2_to64;
use vstd::prelude::*;

verus! {

/// The instruction or marker that a character of a source text stands
/// for, if it is a command.
pub open spec fn command_instruction(command: char) -> Option<InstructionView> {
    if command == '+' {
        Some(InstructionView { position: None, kind: KindView::IncrementCell { amount: 1 } })
    } else if command == '-' {
        Some(InstructionView { position: None, kind: KindView::IncrementCell { amount: -1 } })
    } else if command == '>' {
        Some(InstructionView { position: None, kind: KindView::MovePointer { amount: 1 } })
    } else if command == '<' {
        Some(InstructionView { position: None, kind: KindView::MovePointer { amount: -1 } })
    } else if command == '[' {
        Some(open_marker())
    } else if command == ']' {
        Some(close_marker())
    } else if command == ',' {
        Some(InstructionView { position: None, kind: KindView::InputCell })
    } else if command == '.' {
        Some(InstructionView { position: None, kind: KindView::OutputCell })
    } else {
        None
    }
}

/// The instructions and markers that a source text stands for: those of
/// its commands, in order.
pub open spec fn source_instructions(source: Seq<char>) -> Seq<InstructionView>
    decreases source.len(),
{
    if source.len() == 0 {
        Seq::empty()
    } else {
        match command_instruction(source.last()) {
            Some(instruction) => source_instructions(source.drop_last()).push(instruction),
            None => source_instructions(source.drop_last()),
        }
    }
}

/// A scan between two chords: no key is down and no note is held.
pub open spec fn at_rest(builder: BuilderView) -> ScanView {
    ScanView { builder, held: Seq::empty(), notes_on: 0 }
}

/// What a scan at rest becomes when a builder outcome is put in place of
/// its builder.
pub open spec fn rested(outcome: Result<BuilderView, ParseErrorView>) -> Result<
    ScanView,
    ParseErrorView,
> {
    match outcome {
        Ok(builder) => Ok(at_rest(builder)),
        Err(error) => Err(error),
    }
}

/// One more event after a run of events is one more step of the scan.
pub proof fn lemma_events_push(scan: ScanView, events: Seq<NoteEvent>, event: NoteEvent)
    ensures
        scan.events(events.push(event)) == match scan.events(events) {
            Ok(next) => next.event(event),
            Err(error) => Err(error),
        },
{
    assert(events.push(event).drop_last() =~= events);
}

/// Scanning one run of events and then another is scanning the two
/// joined.
pub proof fn lemma_events_concat(scan: ScanView, first: Seq<NoteEvent>, second: Seq<NoteEvent>)
    ensures
        scan.events(first + second) == match scan.events(first) {
            Ok(between) => between.events(second),
            Err(error) => Err(error),
        },
    decreases second.len(),
{
    if second.len() == 0 {
        assert(first + second =~= first);
    } else {
        assert((first + second).drop_last() =~= first + second.drop_last());
        lemma_events_concat(scan, first, second.drop_last());
    }
}

/// A key that is pressed and released alone is a chord of one note.
pub proof fn lemma_single_note(builder: BuilderView, key: u8)
    ensures
        at_rest(builder).events(seq![NoteEvent::NoteOn { key }, NoteEvent::NoteOff { key }])
            == match decode_chord(seq![key]) {
            Some(instruction) => rested(builder.push(instruction)),
            None => Err(ParseErrorView::NonDiatonic),
        },
{
    let start = at_rest(builder);
    let none = Seq::<NoteEvent>::empty();
    let on = NoteEvent::NoteOn { key };
    let off = NoteEvent::NoteOff { key };
    assert(seq![on, off] =~= none.push(on).push(off));
    lemma_events_push(start, none.push(on), off);
    lemma_events_push(start, none, on);
    assert(with_note(Seq::<u8>::empty(), key) =~= seq![key]);
}

/// The three notes of the output command are one chord, and the chord
/// decodes to the output instruction.
pub proof fn lemma_output_chord(builder: BuilderView)
    ensures
        at_rest(builder).events(command_events('.')) == rested(
            builder.push(InstructionView { position: None, kind: KindView::OutputCell }),
        ),
{
    let start = at_rest(builder);
    let e0 = Seq::<NoteEvent>::empty();
    let e1 = e0.push(NoteEvent::NoteOn { key: 11 });
    let e2 = e1.push(NoteEvent::NoteOn { key: 15 });
    let e3 = e2.push(NoteEvent::NoteOn { key: 18 });
    let e4 = e3.push(NoteEvent::NoteOff { key: 18 });
    let e5 = e4.push(NoteEvent::NoteOff { key: 15 });
    let e6 = e5.push(NoteEvent::NoteOff { key: 11 });
    assert(command_events('.') =~= e6);
    lemma_events_push(start, e0, NoteEvent::NoteOn { key: 11 });
    lemma_events_push(start, e1, NoteEvent::NoteOn { key: 15 });
    lemma_events_push(start, e2, NoteEvent::NoteOn { key: 18 });
    lemma_events_push(start, e3, NoteEvent::NoteOff { key: 18 });
    lemma_events_push(start, e4, NoteEvent::NoteOff { key: 15 });
    lemma_events_push(start, e5, NoteEvent::NoteOff { key: 11 });
    let one = seq![11u8];
    let two = seq![11u8, 15u8];
    let chord = seq![11u8, 15u8, 18u8];
    assert(with_note(Seq::<u8>::empty(), 11) =~= one);
    assert(one.push(15u8) =~= two);
    assert(with_note(one, 15) =~= two);
    assert(two.push(18u8) =~= chord);
    assert(with_note(two, 18) =~= chord);
    assert(start.events(e3) == Ok::<ScanView, ParseErrorView>(
        ScanView { builder, held: chord, notes_on: 3 },
    ));
    assert(start.events(e5) == Ok::<ScanView, ParseErrorView>(
        ScanView { builder, held: chord, notes_on: 1 },
    ));
    lemma2_to64();
    assert(base_index(chord, 1) == 1);
    let tail = chord.subrange(2, 3);
    assert(tail =~= seq![18u8]);
    assert(tail.drop_last() =~= Seq::<u8>::empty());
    reveal_with_fuel(weight_sum, 2);
    assert(weight_sum(tail, 15, widest_gap()) == 4);
    assert(chord_amount(chord) == 4);
    assert(chord_root(chord) == 11);
}

/// The notes of one character are read back as what the character stands
/// for: a command as its instruction or marker, a comment as nothing.
pub proof fn lemma_command_round_trip(builder: BuilderView, command: char)
    ensures
        at_rest(builder).events(command_events(command)) == match command_instruction(command) {
            Some(instruction) => rested(builder.push(instruction)),
            None => Ok(at_rest(builder)),
        },
{
    if command == '.' {
        lemma_output_chord(builder);
    } else {
        match command_key(command) {
            Some(key) => {
                lemma_single_note(builder, key);
                assert(base_index(seq![key], 1) == 1);
                assert(chord_amount(seq![key]) == 1);
                assert(chord_root(seq![key]) == key);
                assert(wrap_i8(-1) == -1);
            },
            None => {},
        }
    }
}

/// The notes of a source text are read back as the instructions and
/// markers of the text, in order.
pub proof fn lemma_source_round_trip(builder: BuilderView, source: Seq<char>)
    ensures
        at_rest(builder).events(source_events(source)) == rested(
            builder.push_all(source_instructions(source)),
        ),
    decreases source.len(),
{
    if source.len() > 0 {
        let front = source.drop_last();
        lemma_source_round_trip(builder, front);
        lemma_events_concat(
            at_rest(builder),
            source_events(front),
            command_events(source.last()),
        );
        match builder.push_all(source_instructions(front)) {
            Ok(between) => {
                lemma_command_round_trip(between, source.last());
                match command_instruction(source.last()) {
                    Some(instruction) => {
                        assert(source_instructions(front).push(instruction).drop_last()
                            =~= source_instructions(front));
                    },
                    None => {},
                }
            },
            Err(_) => {
                match command_instruction(source.last()) {
                    Some(instruction) => {
                        assert(source_instructions(front).push(instruction).drop_last()
                            =~= source_instructions(front));
                    },
                    None => {},
                }
            },
        }
    }
}

/// A file of an empty first track and a second track that holds the notes
/// of a source text is parsed to the program that the commands of the
/// text build.
pub proof fn lemma_written_file_round_trip(source: Seq<char>)
    ensures
        parse_tracks(seq![Seq::empty(), source_events(source)]) == build(
            source_instructions(source),
        ),
{
    let tracks = seq![Seq::<NoteEvent>::empty(), source_events(source)];
    let start = ScanView::start();
    reveal_with_fuel(ScanView::tracks, 3);
    assert(tracks.drop_last() =~= seq![Seq::<NoteEvent>::empty()]);
    assert(tracks.drop_last().drop_last() =~= Seq::<Seq<NoteEvent>>::empty());
    assert(tracks.drop_last().last() =~= Seq::<NoteEvent>::empty());
    assert(start == at_rest(BuilderView::empty()));
    assert(start.track(Seq::<NoteEvent>::empty()) == Ok::<ScanView, ParseErrorView>(start));
    lemma_source_round_trip(BuilderView::empty(), source);
}

} // verus!
