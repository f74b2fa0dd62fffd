//! How the events of a file fall into chords, and what program the chords
//! build.

use crate::parser::chord::{ascending, decode_chord};
use crate::parser::model::{BuilderView, InstructionView, ParseErrorView};
use crate::parser::{program_view, MParseResult, MidiAST};
use crate::smf::NoteEvent;
use vstd::prelude::*;

verus! {

/// The notes of a chord with one more note among them, lowest first.
pub open spec fn with_note(notes: Seq<u8>, key: u8) -> Seq<u8>
    decreases notes.len(),
{
    if notes.len() == 0 || notes.last() <= key {
        notes.push(key)
    } else {
        with_note(notes.drop_last(), key).push(notes.last())
    }
}

/// Notes in ascending order: each note of `notes` is put among those
/// before it.
pub open spec fn sorted_notes(notes: Seq<u8>) -> Seq<u8>
    decreases notes.len(),
{
    if notes.len() == 0 {
        Seq::empty()
    } else {
        with_note(sorted_notes(notes.drop_last()), notes.last())
    }
}

/// Where a note goes among ascending notes: behind the notes that are not
/// above it.
pub open spec fn place_of(notes: Seq<u8>, key: u8) -> int
    decreases notes.len(),
{
    if notes.len() == 0 || notes.last() <= key {
        notes.len() as int
    } else {
        place_of(notes.drop_last(), key)
    }
}

/// The place of a note among ascending notes parts the notes that are not
/// above it from the notes that are.
pub proof fn lemma_place_of(notes: Seq<u8>, key: u8)
    requires
        ascending(notes),
    ensures
        0 <= place_of(notes, key) <= notes.len(),
        forall|i: int| 0 <= i < place_of(notes, key) ==> notes[i] <= key,
        forall|i: int| place_of(notes, key) <= i < notes.len() ==> key < notes[i],
    decreases notes.len(),
{
    if notes.len() == 0 || notes.last() <= key {
        assert forall|i: int| 0 <= i < notes.len() implies notes[i] <= key by {
            assert(notes[i] <= notes[notes.len() - 1]);
        }
    } else {
        let front = notes.drop_last();
        assert(ascending(front)) by {
            assert forall|i: int, j: int| 0 <= i <= j < front.len() implies front[i]
                <= front[j] by {
                assert(notes[i] <= notes[j]);
            }
        }
        lemma_place_of(front, key);
        let place = place_of(notes, key);
        assert forall|i: int| 0 <= i < place implies notes[i] <= key by {
            assert(front[i] == notes[i]);
        }
        assert forall|i: int| place <= i < notes.len() implies key < notes[i] by {
            if i < front.len() {
                assert(front[i] == notes[i]);
            }
        }
    }
}

/// A note that is put among ascending notes leaves them ascending, and
/// the notes are then the notes from before and the new note, each as
/// often as it was there.
pub proof fn lemma_with_note_sorts(notes: Seq<u8>, key: u8)
    requires
        ascending(notes),
    ensures
        ascending(with_note(notes, key)),
        with_note(notes, key).len() == notes.len() + 1,
        with_note(notes, key).to_multiset() == notes.to_multiset().insert(key),
{
    lemma_place_of(notes, key);
    lemma_with_note(notes, key, place_of(notes, key));
    vstd::seq_lib::to_multiset_insert(notes, place_of(notes, key), key);
}

/// Sorted notes are ascending, and they are the notes that were given,
/// each as often as it was given.
pub proof fn lemma_sorted_notes(notes: Seq<u8>)
    ensures
        ascending(sorted_notes(notes)),
        sorted_notes(notes).len() == notes.len(),
        sorted_notes(notes).to_multiset() == notes.to_multiset(),
    decreases notes.len(),
{
    if notes.len() == 0 {
        assert(sorted_notes(notes) =~= notes);
    } else {
        let front = notes.drop_last();
        lemma_sorted_notes(front);
        lemma_with_note_sorts(sorted_notes(front), notes.last());
        vstd::seq_lib::to_multiset_build(front, notes.last());
        assert(front.push(notes.last()) =~= notes);
    }
}

/// Notes that are ascending are sorted as they are.
pub proof fn lemma_sorted_notes_of_ascending(notes: Seq<u8>)
    requires
        ascending(notes),
    ensures
        sorted_notes(notes) == notes,
    decreases notes.len(),
{
    if notes.len() > 0 {
        let front = notes.drop_last();
        assert(ascending(front)) by {
            assert forall|i: int, j: int| 0 <= i <= j < front.len() implies front[i]
                <= front[j] by {
                assert(notes[i] <= notes[j]);
            }
        }
        lemma_sorted_notes_of_ascending(front);
        if front.len() > 0 {
            assert(front.last() <= notes.last()) by {
                assert(notes[notes.len() - 2] <= notes[notes.len() - 1]);
            }
        }
        assert(front.push(notes.last()) =~= notes);
    }
}

/// Adding a note to an ascending chord, before the notes above it, keeps
/// the chord ascending.
pub proof fn lemma_with_note(notes: Seq<u8>, key: u8, at: int)
    requires
        ascending(notes),
        0 <= at <= notes.len(),
        forall|i: int| 0 <= i < at ==> notes[i] <= key,
        forall|i: int| at <= i < notes.len() ==> key < notes[i],
    ensures
        with_note(notes, key) == notes.insert(at, key),
        ascending(with_note(notes, key)),
        with_note(notes, key).len() == notes.len() + 1,
    decreases notes.len(),
{
    if notes.len() == 0 || notes.last() <= key {
        assert(at == notes.len());
        assert(notes.insert(at, key) =~= notes.push(key));
    } else {
        lemma_with_note(notes.drop_last(), key, at);
        assert(notes.drop_last().insert(at, key).push(notes.last()) =~= notes.insert(at, key));
    }
    let longer = notes.insert(at, key);
    assert forall|i: int, j: int| 0 <= i <= j < longer.len() implies longer[i] <= longer[j] by {
        let from = if i < at { i } else { i - 1 };
        let to = if j < at { j } else { j - 1 };
        if i != at && j != at {
            assert(notes[from] <= notes[to]);
        }
    }
}

/// How far the scan of the tracks has come.
pub struct ScanView {
    /// The tree as far as it is built.
    pub builder: BuilderView,
    /// The notes pressed since the last chord ended, lowest first.
    pub held: Seq<u8>,
    /// How many more keys were pressed than released in this track.
    pub notes_on: int,
}

impl ScanView {
    /// The scan before the first event.
    pub open spec fn start() -> ScanView {
        ScanView { builder: BuilderView::empty(), held: Seq::empty(), notes_on: 0 }
    }

    /// The builder is well formed, and while keys are down, notes are
    /// held, and they are held in order.
    pub open spec fn well_formed(self) -> bool {
        &&& self.builder.well_formed()
        &&& ascending(self.held)
        &&& self.notes_on > 0 ==> self.held.len() > 0
    }

    /// The scan after one more event. A key that goes down joins the chord.
    /// A key that goes up ends the chord if it brings the count of keys
    /// that are down to zero: the chord is decoded and handed to the
    /// builder. Other events change nothing.
    pub open spec fn event(self, event: NoteEvent) -> Result<ScanView, ParseErrorView> {
        match event {
            NoteEvent::NoteOn { key } => Ok(
                ScanView {
                    builder: self.builder,
                    held: with_note(self.held, key),
                    notes_on: self.notes_on + 1,
                },
            ),
            NoteEvent::NoteOff { .. } => if self.notes_on == 1 {
                match decode_chord(self.held) {
                    Some(instruction) => match self.builder.push(instruction) {
                        Ok(builder) => Ok(ScanView { builder, held: Seq::empty(), notes_on: 0 }),
                        Err(error) => Err(error),
                    },
                    None => Err(ParseErrorView::NonDiatonic),
                }
            } else {
                Ok(
                    ScanView {
                        builder: self.builder,
                        held: self.held,
                        notes_on: self.notes_on - 1,
                    },
                )
            },
            NoteEvent::Other => Ok(self),
        }
    }

    /// The scan after the events of a track, from its first event on, or
    /// the first error.
    pub open spec fn events(self, events: Seq<NoteEvent>) -> Result<ScanView, ParseErrorView>
        decreases events.len(),
    {
        if events.len() == 0 {
            Ok(self)
        } else {
            match self.events(events.drop_last()) {
                Ok(scan) => scan.event(events.last()),
                Err(error) => Err(error),
            }
        }
    }

    /// The scan after one whole track. The count of keys that are down
    /// starts at zero in every track; the notes that are held carry over.
    pub open spec fn track(self, events: Seq<NoteEvent>) -> Result<ScanView, ParseErrorView> {
        ScanView { builder: self.builder, held: self.held, notes_on: 0 }.events(events)
    }

    /// The scan after all the tracks, in order, or the first error.
    pub open spec fn tracks(self, tracks: Seq<Seq<NoteEvent>>) -> Result<ScanView, ParseErrorView>
        decreases tracks.len(),
    {
        if tracks.len() == 0 {
            Ok(self)
        } else {
            match self.tracks(tracks.drop_last()) {
                Ok(scan) => scan.track(tracks.last()),
                Err(error) => Err(error),
            }
        }
    }
}

/// The program that the tracks of a file encode, or the reason why they
/// encode none.
pub open spec fn parse_tracks(tracks: Seq<Seq<NoteEvent>>) -> Result<
    Seq<InstructionView>,
    ParseErrorView,
> {
    if tracks.len() == 0 {
        Err(ParseErrorView::NoTracks)
    } else {
        match ScanView::start().tracks(tracks) {
            Ok(scan) => scan.builder.finish(),
            Err(error) => Err(error),
        }
    }
}

/// How many events the tracks hold together.
pub open spec fn event_count(tracks: Seq<Seq<NoteEvent>>) -> nat
    decreases tracks.len(),
{
    if tracks.len() == 0 {
        0
    } else {
        event_count(tracks.drop_last()) + tracks.last().len()
    }
}

/// A result as a value: the view of the program, or the error.
pub open spec fn parsed(result: MParseResult<MidiAST>) -> Result<
    Seq<InstructionView>,
    ParseErrorView,
> {
    match result {
        Ok(program) => Ok(program_view(program@)),
        Err(error) => Err(error@),
    }
}

/// An error stops the scan of a track: events after it change nothing.
pub proof fn lemma_events_error_stays(
    scan: ScanView,
    events: Seq<NoteEvent>,
    upto: int,
    error: ParseErrorView,
)
    requires
        0 <= upto <= events.len(),
        scan.events(events.take(upto)) == Err::<ScanView, ParseErrorView>(error),
    ensures
        scan.events(events) == Err::<ScanView, ParseErrorView>(error),
    decreases events.len() - upto,
{
    if upto < events.len() {
        assert(events.take(upto + 1).drop_last() =~= events.take(upto));
        lemma_events_error_stays(scan, events, upto + 1, error);
    } else {
        assert(events.take(upto) =~= events);
    }
}

/// An error stops the scan of the tracks: tracks after it change nothing.
pub proof fn lemma_tracks_error_stays(
    scan: ScanView,
    tracks: Seq<Seq<NoteEvent>>,
    upto: int,
    error: ParseErrorView,
)
    requires
        0 <= upto <= tracks.len(),
        scan.tracks(tracks.take(upto)) == Err::<ScanView, ParseErrorView>(error),
    ensures
        scan.tracks(tracks) == Err::<ScanView, ParseErrorView>(error),
    decreases tracks.len() - upto,
{
    if upto < tracks.len() {
        assert(tracks.take(upto + 1).drop_last() =~= tracks.take(upto));
        lemma_tracks_error_stays(scan, tracks, upto + 1, error);
    } else {
        assert(tracks.take(upto) =~= tracks);
    }
}

/// The first tracks of a file hold no more events than all of them.
pub proof fn lemma_event_count_take(tracks: Seq<Seq<NoteEvent>>, upto: int)
    requires
        0 <= upto <= tracks.len(),
    ensures
        event_count(tracks.take(upto)) <= event_count(tracks),
        upto < tracks.len() ==> event_count(tracks.take(upto + 1)) == event_count(
            tracks.take(upto),
        ) + tracks[upto].len(),
    decreases tracks.len() - upto,
{
    if upto < tracks.len() {
        assert(tracks.take(upto + 1).drop_last() =~= tracks.take(upto));
        lemma_event_count_take(tracks, upto + 1);
    } else {
        assert(tracks.take(upto) =~= tracks);
    }
}


} // verus!
