//! The flat reading of a file: every chord becomes one node of a list, and
//! loops are two jump markers that must pair up.

use crate::parser::chord::{
    ascending, base_index, chord_root, chord_weight, counts, lemma_weight_sum_concat,
    lemma_weight_sum_none, lemma_weight_sum_push, weight_sum,
};
use crate::parser::insert_note;
use crate::parser::scan::with_note;
use crate::smf::{tracks_view, NoteEvent, Track};
use vstd::arithmetic::div_mod::{lemma_add_mod_noop, lemma_small_mod};
use vstd::arithmetic::power2::{lemma2_to64, lemma_pow2_pos, lemma_pow2_unfold, pow2};
use vstd::prelude::*;

verus! {

/// One node of a flat program.
#[derive(Debug, PartialEq, Eq, Clone, Copy, Structural)]
pub enum MASTNode {
    IncrementCell(u32),
    DecrementCell(u32),
    MoveLeft(u32),
    MoveRight(u32),
    OutputCell,
    InputCell,
    /// Opens a loop: jumps past the matching `JumpNotZero` on a zero cell.
    JumpZero,
    /// Closes a loop: jumps back to the matching `JumpZero` unless the cell
    /// is zero.
    JumpNotZero,
}

/// A flat program: its nodes in order.
pub type MidiAST = Vec<MASTNode>;

/// What the flat reading gives back.
pub type MParseResult<T> = Result<T, MParseError>;

/// Why a stream of chords is no flat program. A loop is named by the index,
/// within its track, of the event that ended its chord.
#[derive(Debug, PartialEq, Eq, Clone, Copy, Structural)]
pub enum MParseError {
    /// The input holds no track at all.
    NoTracks,
    /// A loop was opened and never closed: the innermost such loop.
    UnclosedLoop(usize),
    /// A loop was closed while none was open.
    DanglingLoop(usize),
    /// The root of a chord selects no operation.
    NonDiatonic,
}

/// The widest gap that still counts towards an unsigned 32-bit amount.
pub open spec fn widest_gap() -> int {
    32
}

/// The value that a natural number takes once it is stored in 32 bits.
pub open spec fn wrap_u32(x: int) -> int {
    x % 0x1_0000_0000
}

/// The amount that a chord encodes: the weights of the notes above its base
/// note, summed and wrapped into 32 bits, and 1 where no note counts.
pub open spec fn chord_amount(notes: Seq<u8>) -> int {
    let weight = chord_weight(notes, widest_gap());
    if weight == 0 {
        1
    } else {
        wrap_u32(weight as int)
    }
}

/// The node that a pitch class selects in C major, with its amount.
pub open spec fn diatonic(root: u8, amount: u32) -> Option<MASTNode> {
    if root == 0 {
        Some(MASTNode::JumpNotZero)
    } else if root == 2 {
        Some(MASTNode::MoveLeft(amount))
    } else if root == 4 {
        Some(MASTNode::MoveRight(amount))
    } else if root == 5 {
        Some(MASTNode::DecrementCell(amount))
    } else if root == 7 {
        Some(MASTNode::JumpZero)
    } else if root == 9 {
        Some(MASTNode::IncrementCell(amount))
    } else if root == 11 {
        if amount == 1 {
            Some(MASTNode::InputCell)
        } else {
            Some(MASTNode::OutputCell)
        }
    } else {
        None
    }
}

/// The node that a chord stands for in C major, if its root is diatonic.
pub open spec fn decode_chord(notes: Seq<u8>) -> Option<MASTNode> {
    diatonic(chord_root(notes), chord_amount(notes) as u32)
}

/// Two to the power of `gap`, wrapped into 32 bits.
fn wrapped_power_of_two(gap: u8) -> (power: u32)
    ensures
        power == wrap_u32(pow2(gap as nat) as int),
{
    let mut power: u32 = 1;
    let mut done: u8 = 0;
    proof {
        lemma2_to64();
        lemma_small_mod(1, 0x1_0000_0000);
    }
    while done < gap
        invariant
            done <= gap,
            power == wrap_u32(pow2(done as nat) as int),
        decreases gap - done,
    {
        proof {
            let before = pow2(done as nat) as int;
            lemma_pow2_unfold((done + 1) as nat);
            lemma_add_mod_noop(before, before, 0x1_0000_0000);
        }
        power = power.wrapping_add(power);
        done += 1;
    }
    power
}

/// Where the base note of a chord stands, or the length of the chord where
/// it has none.
fn find_base(vals: &Vec<u8>, root: u8) -> (at: usize)
    requires
        vals@.len() > 0,
        root == chord_root(vals@),
    ensures
        at == base_index(vals@, 1),
        1 <= at <= vals@.len(),
{
    let mut at: usize = 1;
    while at < vals.len() && vals[at] == root
        invariant
            1 <= at <= vals.len(),
            root == chord_root(vals@),
            base_index(vals@, 1) == base_index(vals@, at as int),
        decreases vals.len() - at,
    {
        at += 1;
    }
    at
}

/// The weights of the notes that follow the base note, summed and
/// wrapped, or `None` where no note counts.
fn sum_weights(vals: &Vec<u8>, base_at: usize) -> (arg: Option<u32>)
    requires
        ascending(vals@),
        base_at < vals@.len(),
    ensures
        ({
            let weight = weight_sum(
                vals@.subrange(base_at + 1, vals@.len() as int),
                vals@[base_at as int],
                widest_gap(),
            );
            match arg {
                Some(sum) => weight != 0 && sum == wrap_u32(weight as int),
                None => weight == 0,
            }
        }),
{
    let len = vals.len();
    let bb = vals[base_at];
    let mut arg: Option<u32> = None;
    let mut at: usize = base_at + 1;
    let ghost notes = vals@;
    let ghost end = notes.len() as int;
    proof {
        assert(notes.subrange(base_at + 1, at as int) =~= Seq::<u8>::empty());
    }
    while at < len
        invariant_except_break
            base_at < at <= vals.len(),
        invariant
            len == vals.len(),
            notes == vals@,
            end == notes.len(),
            ascending(notes),
            bb == notes[base_at as int],
            base_at < at <= end,
            ({
                let seen = weight_sum(notes.subrange(base_at + 1, at as int), bb, widest_gap());
                match arg {
                    Some(sum) => seen != 0 && sum == wrap_u32(seen as int),
                    None => seen == 0,
                }
            }),
        ensures
            ({
                let all = weight_sum(notes.subrange(base_at + 1, end), bb, widest_gap());
                match arg {
                    Some(sum) => all != 0 && sum == wrap_u32(all as int),
                    None => all == 0,
                }
            }),
        decreases len - at,
    {
        let vv = vals[at];
        let ghost seen_notes = notes.subrange(base_at + 1, at as int);
        let ghost seen = weight_sum(seen_notes, bb, widest_gap());
        proof {
            assert(notes[base_at as int] <= notes[at as int]);
            lemma_weight_sum_push(seen_notes, vv, bb, widest_gap());
            assert(seen_notes.push(vv) =~= notes.subrange(base_at + 1, at + 1));
        }
        if vv != bb {
            let tmp = vv - bb - 1;
            if tmp > 32 {
                proof {
                    let rest = notes.subrange(at as int, end);
                    assert forall|i: int| 0 <= i < rest.len() implies !counts(
                        #[trigger] rest[i],
                        bb,
                        widest_gap(),
                    ) by {
                        assert(notes[at as int] <= notes[at + i]);
                    }
                    lemma_weight_sum_none(rest, bb, widest_gap());
                    lemma_weight_sum_concat(seen_notes, rest, bb, widest_gap());
                    assert(seen_notes + rest =~= notes.subrange(base_at + 1, end));
                }
                break ;
            }
            let to_add = wrapped_power_of_two(tmp);
            proof {
                lemma_pow2_pos(tmp as nat);
                lemma_add_mod_noop(seen as int, pow2(tmp as nat) as int, 0x1_0000_0000);
            }
            arg = Some(
                match arg {
                    Some(sum) => sum.wrapping_add(to_add),
                    None => to_add,
                },
            );
        }
        at += 1;
    }
    arg
}

/// Decodes one chord: the pitch class of its lowest note and the amount
/// that its other notes encode are handed to `key`, which picks the node.
///
/// A gap of 32 is wider than 32 bits hold: its weight wraps to 0.
pub fn parse_chord<F: Fn(u8, u32) -> MParseResult<MASTNode>>(vals: Vec<u8>, key: &F) -> (result:
    MParseResult<MASTNode>)
    requires
        vals@.len() > 0,
        ascending(vals@),
        key.requires((chord_root(vals@), chord_amount(vals@) as u32)),
    ensures
        key.ensures((chord_root(vals@), chord_amount(vals@) as u32), result),
{
    let root = vals[0] % 12;
    let base_at = find_base(&vals, root);
    let amount = if base_at < vals.len() {
        match sum_weights(&vals, base_at) {
            Some(sum) => sum,
            None => 1,
        }
    } else {
        1
    };
    key(root, amount)
}

/// The node that a pitch class selects in C major. The amount goes unused
/// where the node takes none.
pub fn c_major(root: u8, arg: u32) -> (result: MParseResult<MASTNode>)
    ensures
        result == match diatonic(root, arg) {
            Some(node) => Ok::<MASTNode, MParseError>(node),
            None => Err(MParseError::NonDiatonic),
        },
{
    match root {
        0 => Ok(MASTNode::JumpNotZero),
        2 => Ok(MASTNode::MoveLeft(arg)),
        4 => Ok(MASTNode::MoveRight(arg)),
        5 => Ok(MASTNode::DecrementCell(arg)),
        7 => Ok(MASTNode::JumpZero),
        9 => Ok(MASTNode::IncrementCell(arg)),
        11 => if arg == 1 {
            Ok(MASTNode::InputCell)
        } else {
            Ok(MASTNode::OutputCell)
        },
        _ => Err(MParseError::NonDiatonic),
    }
}

/// How far the flat scan of the tracks has come.
pub struct FlatScan {
    /// The nodes so far.
    pub program: Seq<MASTNode>,
    /// The loops that are open, the outermost first, each by the index of
    /// the event that ended its chord.
    pub open_loops: Seq<usize>,
    /// The notes pressed since the last chord ended, lowest first.
    pub held: Seq<u8>,
    /// How many more keys were pressed than released in this track.
    pub notes_on: int,
}

impl FlatScan {
    /// The scan before the first event.
    pub open spec fn start() -> FlatScan {
        FlatScan { program: Seq::empty(), open_loops: Seq::empty(), held: Seq::empty(), notes_on: 0 }
    }

    /// While keys are down, notes are held, and they are held in order.
    pub open spec fn well_formed(self) -> bool {
        &&& ascending(self.held)
        &&& self.notes_on > 0 ==> self.held.len() > 0
    }

    /// The scan after a chord ended at the event `index` and decoded to
    /// `node`. Every node joins the program; the two jumps also open and
    /// close a loop.
    pub open spec fn node(self, index: usize, node: MASTNode) -> Result<FlatScan, MParseError> {
        if node == MASTNode::JumpNotZero && self.open_loops.len() == 0 {
            Err(MParseError::DanglingLoop(index))
        } else {
            Ok(
                FlatScan {
                    program: self.program.push(node),
                    open_loops: if node == MASTNode::JumpNotZero {
                        self.open_loops.drop_last()
                    } else if node == MASTNode::JumpZero {
                        self.open_loops.push(index)
                    } else {
                        self.open_loops
                    },
                    held: Seq::empty(),
                    notes_on: 0,
                },
            )
        }
    }

    /// The scan after the event at `index` of a track. A key that goes down
    /// joins the chord. A key that goes up ends the chord if it brings the
    /// count of keys that are down to zero. Other events change nothing.
    pub open spec fn event(self, index: usize, event: NoteEvent) -> Result<
        FlatScan,
        MParseError,
    > {
        match event {
            NoteEvent::NoteOn { key } => Ok(
                FlatScan {
                    program: self.program,
                    open_loops: self.open_loops,
                    held: with_note(self.held, key),
                    notes_on: self.notes_on + 1,
                },
            ),
            NoteEvent::NoteOff { .. } => if self.notes_on == 1 {
                match decode_chord(self.held) {
                    Some(node) => self.node(index, node),
                    None => Err(MParseError::NonDiatonic),
                }
            } else {
                Ok(
                    FlatScan {
                        program: self.program,
                        open_loops: self.open_loops,
                        held: self.held,
                        notes_on: self.notes_on - 1,
                    },
                )
            },
            NoteEvent::Other => Ok(self),
        }
    }

    /// The scan after the events of a track, from its first event on, or
    /// the first error.
    pub open spec fn events(self, events: Seq<NoteEvent>) -> Result<FlatScan, MParseError>
        decreases events.len(),
    {
        if events.len() == 0 {
            Ok(self)
        } else {
            match self.events(events.drop_last()) {
                Ok(scan) => scan.event((events.len() - 1) as usize, events.last()),
                Err(error) => Err(error),
            }
        }
    }

    /// The scan after one whole track. The count of keys that are down
    /// starts at zero in every track; the notes that are held carry over.
    pub open spec fn track(self, events: Seq<NoteEvent>) -> Result<FlatScan, MParseError> {
        FlatScan {
            program: self.program,
            open_loops: self.open_loops,
            held: self.held,
            notes_on: 0,
        }.events(events)
    }

    /// The scan after all the tracks, in order, or the first error.
    pub open spec fn tracks(self, tracks: Seq<Seq<NoteEvent>>) -> Result<FlatScan, MParseError>
        decreases tracks.len(),
    {
        if tracks.len() == 0 {
            Ok(self)
        } else {
            match self.tracks(tracks.drop_last()) {
                Ok(scan) => scan.track(tracks.last()),
                Err(error) => Err(error),
            }
        }
    }

    /// The finished program, which exists once every loop is closed.
    pub open spec fn finish(self) -> Result<Seq<MASTNode>, MParseError> {
        if self.open_loops.len() == 0 {
            Ok(self.program)
        } else {
            Err(MParseError::UnclosedLoop(self.open_loops.last()))
        }
    }
}

/// The flat program that the tracks of a file encode, or the reason why
/// they encode none.
pub open spec fn parse_tracks(tracks: Seq<Seq<NoteEvent>>) -> Result<Seq<MASTNode>, MParseError> {
    if tracks.len() == 0 {
        Err(MParseError::NoTracks)
    } else {
        match FlatScan::start().tracks(tracks) {
            Ok(scan) => scan.finish(),
            Err(error) => Err(error),
        }
    }
}

/// A result as a value: the nodes of the program, or the error.
pub open spec fn parsed(result: MParseResult<MidiAST>) -> Result<Seq<MASTNode>, MParseError> {
    match result {
        Ok(program) => Ok(program@),
        Err(error) => Err(error),
    }
}

/// An error stops the scan of a track: events after it change nothing.
pub proof fn lemma_events_error_stays(
    scan: FlatScan,
    events: Seq<NoteEvent>,
    upto: int,
    error: MParseError,
)
    requires
        0 <= upto <= events.len(),
        scan.events(events.take(upto)) == Err::<FlatScan, MParseError>(error),
    ensures
        scan.events(events) == Err::<FlatScan, MParseError>(error),
    decreases events.len() - upto,
{
    if upto < events.len() {
        assert(events.take(upto + 1).drop_last() =~= events.take(upto));
        lemma_events_error_stays(scan, events, upto + 1, error);
    } else {
        assert(events.take(upto) =~= events);
    }
}

/// An error stops the scan of the tracks: tracks after it change nothing.
pub proof fn lemma_tracks_error_stays(
    scan: FlatScan,
    tracks: Seq<Seq<NoteEvent>>,
    upto: int,
    error: MParseError,
)
    requires
        0 <= upto <= tracks.len(),
        scan.tracks(tracks.take(upto)) == Err::<FlatScan, MParseError>(error),
    ensures
        scan.tracks(tracks) == Err::<FlatScan, MParseError>(error),
    decreases tracks.len() - upto,
{
    if upto < tracks.len() {
        assert(tracks.take(upto + 1).drop_last() =~= tracks.take(upto));
        lemma_tracks_error_stays(scan, tracks, upto + 1, error);
    } else {
        assert(tracks.take(upto) =~= tracks);
    }
}

/// Takes in the event at `index` of a track.
fn scan_event(
    prog: &mut MidiAST,
    loop_stack: &mut Vec<usize>,
    held: &mut Vec<u8>,
    notes_on: &mut i128,
    index: usize,
    event: NoteEvent,
) -> (result: MParseResult<()>)
    requires
        i128::MIN < *old(notes_on) < i128::MAX,
        (FlatScan {
            program: old(prog)@,
            open_loops: old(loop_stack)@,
            held: old(held)@,
            notes_on: *old(notes_on) as int,
        }).well_formed(),
    ensures
        match (FlatScan {
            program: old(prog)@,
            open_loops: old(loop_stack)@,
            held: old(held)@,
            notes_on: *old(notes_on) as int,
        }).event(index, event) {
            Ok(next) => {
                &&& result is Ok
                &&& next == (FlatScan {
                    program: final(prog)@,
                    open_loops: final(loop_stack)@,
                    held: final(held)@,
                    notes_on: *final(notes_on) as int,
                })
                &&& next.well_formed()
                &&& old(notes_on) - 1 <= *final(notes_on) <= old(notes_on) + 1
            },
            Err(error) => result == Err::<(), MParseError>(error),
        },
{
    match event {
        NoteEvent::NoteOn { key } => {
            insert_note(held, key);
            *notes_on += 1;
        },
        NoteEvent::NoteOff { .. } => {
            *notes_on -= 1;
            if *notes_on == 0 {
                let mut chord: Vec<u8> = Vec::new();
                std::mem::swap(held, &mut chord);
                let node = parse_chord(chord, &c_major)?;
                match node {
                    MASTNode::JumpNotZero => {
                        if loop_stack.pop().is_none() {
                            return Err(MParseError::DanglingLoop(index));
                        }
                    },
                    MASTNode::JumpZero => {
                        loop_stack.push(index);
                    },
                    _ => {},
                }
                prog.push(node);
            }
        },
        NoteEvent::Other => {},
    }
    Ok(())
}

/// Takes in the events of one track, from the first on.
fn scan_track(
    prog: &mut MidiAST,
    loop_stack: &mut Vec<usize>,
    held: &mut Vec<u8>,
    track: &Track,
) -> (result: MParseResult<()>)
    requires
        ascending(old(held)@),
    ensures
        match (FlatScan {
            program: old(prog)@,
            open_loops: old(loop_stack)@,
            held: old(held)@,
            notes_on: 0,
        }).track(track@) {
            Ok(next) => {
                &&& result is Ok
                &&& next.program == final(prog)@
                &&& next.open_loops == final(loop_stack)@
                &&& next.held == final(held)@
                &&& ascending(final(held)@)
            },
            Err(error) => result == Err::<(), MParseError>(error),
        },
{
    let ghost fresh = FlatScan {
        program: old(prog)@,
        open_loops: old(loop_stack)@,
        held: old(held)@,
        notes_on: 0,
    };
    let mut notes_on: i128 = 0;
    let mut i: usize = 0;
    proof {
        assert(track@.take(0) =~= Seq::<NoteEvent>::empty());
    }
    while i < track.len()
        invariant
            i <= track.len(),
            -i <= notes_on <= i,
            fresh == (FlatScan {
                program: old(prog)@,
                open_loops: old(loop_stack)@,
                held: old(held)@,
                notes_on: 0,
            }),
            fresh.events(track@.take(i as int)) matches Ok(now) && now.well_formed() && now == (
            FlatScan {
                program: prog@,
                open_loops: loop_stack@,
                held: held@,
                notes_on: notes_on as int,
            }),
        decreases track.len() - i,
    {
        proof {
            let now = FlatScan {
                program: prog@,
                open_loops: loop_stack@,
                held: held@,
                notes_on: notes_on as int,
            };
            assert(track@.take(i + 1).drop_last() =~= track@.take(i as int));
            assert(track@.take(i + 1).last() == track@[i as int]);
            assert(fresh.events(track@.take(i + 1)) == now.event(i, track@[i as int]));
        }
        match scan_event(prog, loop_stack, held, &mut notes_on, i, track[i]) {
            Ok(()) => {},
            Err(error) => {
                proof {
                    lemma_events_error_stays(fresh, track@, i + 1, error);
                }
                return Err(error);
            },
        }
        i += 1;
    }
    proof {
        assert(track@.take(i as int) =~= track@);
    }
    Ok(())
}

/// Reads the flat program out of the tracks of a file: groups the notes
/// into chords, decodes each chord in C major and pairs up the jumps.
pub fn parse(midi: Vec<Track>) -> (result: MParseResult<MidiAST>)
    ensures
        parsed(result) == parse_tracks(tracks_view(midi@)),
{
    let mut prog: MidiAST = Vec::new();
    if midi.is_empty() {
        return Err(MParseError::NoTracks);
    }
    let ghost tracks = tracks_view(midi@);
    let mut current_node: Vec<u8> = Vec::new();
    let mut loop_stack: Vec<usize> = Vec::new();
    let mut t: usize = 0;
    while t < midi.len()
        invariant
            t <= midi.len(),
            tracks == tracks_view(midi@),
            ascending(current_node@),
            FlatScan::start().tracks(tracks.take(t as int)) matches Ok(scan) && scan.program
                == prog@ && scan.open_loops == loop_stack@ && scan.held == current_node@,
        decreases midi.len() - t,
    {
        proof {
            assert(tracks.take(t + 1).drop_last() =~= tracks.take(t as int));
        }
        match scan_track(&mut prog, &mut loop_stack, &mut current_node, &midi[t]) {
            Ok(()) => {},
            Err(error) => {
                proof {
                    lemma_tracks_error_stays(FlatScan::start(), tracks, t + 1, error);
                }
                return Err(error);
            },
        }
        t += 1;
    }
    proof {
        assert(tracks.take(t as int) =~= tracks);
    }
    match loop_stack.pop() {
        Some(index) => Err(MParseError::UnclosedLoop(index)),
        None => Ok(prog),
    }
}

} // verus!
