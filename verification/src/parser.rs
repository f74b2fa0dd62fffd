//! The instruction tree of the tape machine, the builder that nests a stream
//! of decoded instructions into it, and the decoder that turns chords into
//! instructions.

pub mod chord;
pub mod laws;
pub mod model;
pub mod scan;

use crate::cell::{lemma_wrap_i8_add, lemma_wrap_i8_periodic, wrap_i8, Cell};
use crate::parser::chord::{
    ascending, base_index, chord_amount, chord_root, chord_weight, counts, decode_chord,
    decoded, diatonic,
    lemma_weight_sum_concat, lemma_weight_sum_none, lemma_weight_sum_push, weight_sum,
    widest_gap,
};
use crate::parser::model::{
    close_marker, lemma_finish_well_nested, lemma_push_keeps_well_formed, open_marker,
    well_nested, BuilderView, InstructionView, KindView, OpenLoopView, ParseErrorView,
};
use crate::parser::scan::{
    event_count, lemma_event_count_take, lemma_events_error_stays, lemma_tracks_error_stays,
    lemma_with_note, parse_tracks, parsed, sorted_notes, with_note, ScanView,
};
use crate::smf::{tracks_view, NoteEvent, Track};
use crate::text::{position_text, positions_text};
use vstd::arithmetic::power2::{lemma2_to64, lemma_pow2_pos, lemma_pow2_unfold, pow2};
use vstd::prelude::*;
use vstd::string::StringExecFns;

verus! {

/// A range of source-instruction indices, both ends included. A leaf
/// occupies one index, so its two ends agree; a closed loop runs from its
/// opening marker to its closing marker.
#[derive(PartialEq, Eq, Clone, Copy, Debug, Structural)]
pub struct Position {
    pub start: usize,
    pub end: usize,
}

impl Position {
    /// The range from `start` to `end`.
    pub fn new(start: usize, end: usize) -> (position: Position)
        ensures
            position == (Position { start, end }),
    {
        Position { start, end }
    }

    /// The position as text: `(3)` for a single index, `(3,7)` for a
    /// range.
    pub fn describe(&self) -> (text: String)
        ensures
            text@ == position_text(*self),
    {
        crate::text::position(self)
    }
}

/// One instruction together with the place it came from, if that is known.
///
/// A `Loop` that travels towards a builder is a marker and its body is
/// ignored: with a position it opens a loop, without one it closes the
/// innermost open loop.
#[derive(Debug, PartialEq, Eq)]
pub struct MidiInstruction {
    pub position: Option<Position>,
    pub instruction: MidiInstructionKind,
}

/// What an instruction does.
#[allow(inconsistent_fields)]
#[derive(Debug, PartialEq, Eq)]
pub enum MidiInstructionKind {
    /// Adds `amount` to the current cell, wrapping.
    IncrementCell { amount: Cell },
    /// Shifts the cursor by `amount` cells.
    MovePointer { amount: isize },
    /// Writes the current cell as one character.
    OutputCell,
    /// Reads one character into the current cell.
    InputCell,
    /// Runs `body` for as long as the current cell is not zero, testing
    /// before every round.
    Loop { body: MidiAST },
}

/// A program: its top-level instructions in order.
pub type MidiAST = Vec<MidiInstruction>;

impl View for MidiInstruction {
    type V = InstructionView;

    open spec fn view(&self) -> InstructionView {
        instruction_view(*self)
    }
}

/// An instruction as a mathematical value, with the bodies of its loops.
pub open spec fn instruction_view(instruction: MidiInstruction) -> InstructionView
    decreases instruction,
{
    InstructionView {
        position: instruction.position,
        kind: match instruction.instruction {
            MidiInstructionKind::IncrementCell { amount } => KindView::IncrementCell {
                amount: amount@,
            },
            MidiInstructionKind::MovePointer { amount } => KindView::MovePointer {
                amount: amount as int,
            },
            MidiInstructionKind::OutputCell => KindView::OutputCell,
            MidiInstructionKind::InputCell => KindView::InputCell,
            MidiInstructionKind::Loop { body } => KindView::Loop { body: program_view(body@) },
        },
    }
}

/// A program as a mathematical value: the views of its instructions in
/// order.
pub open spec fn program_view(program: Seq<MidiInstruction>) -> Seq<InstructionView>
    decreases program,
{
    if program.len() == 0 {
        Seq::empty()
    } else {
        program_view(program.drop_last()).push(instruction_view(program.last()))
    }
}

/// The view of a program holds the views of its instructions, one for
/// one.
pub proof fn lemma_program_view_index(program: Seq<MidiInstruction>)
    ensures
        program_view(program).len() == program.len(),
        forall|i: int|
            0 <= i < program.len() ==> #[trigger] program_view(program)[i] == program[i]@,
    decreases program.len(),
{
    if program.len() > 0 {
        lemma_program_view_index(program.drop_last());
    }
}

/// The view of a program with one more instruction is its view with the
/// view of that instruction.
pub proof fn lemma_program_view_push(program: Seq<MidiInstruction>, last: MidiInstruction)
    ensures
        program_view(program.push(last)) == program_view(program).push(last@),
{
    assert(program.push(last).drop_last() =~= program);
}

impl MidiInstruction {
    /// `IncrementCell` without a position.
    pub fn new_inc(amount: Cell) -> (instruction: MidiInstruction)
        ensures
            instruction@ == (InstructionView {
                position: None,
                kind: KindView::IncrementCell { amount: amount@ },
            }),
    {
        MidiInstruction { position: None, instruction: MidiInstructionKind::IncrementCell { amount } }
    }

    /// `MovePointer` without a position.
    pub fn new_move(amount: isize) -> (instruction: MidiInstruction)
        ensures
            instruction@ == (InstructionView {
                position: None,
                kind: KindView::MovePointer { amount: amount as int },
            }),
    {
        MidiInstruction { position: None, instruction: MidiInstructionKind::MovePointer { amount } }
    }

    /// The marker that closes the innermost open loop.
    pub fn new_close_loop() -> (instruction: MidiInstruction)
        ensures
            instruction@ == close_marker(),
    {
        let instruction = MidiInstruction {
            position: None,
            instruction: MidiInstructionKind::Loop { body: Vec::new() },
        };
        assert(instruction@.kind->Loop_body =~= Seq::empty());
        instruction
    }

    /// The marker that opens a loop.
    pub fn new_open_loop() -> (instruction: MidiInstruction)
        ensures
            instruction@ == open_marker(),
    {
        let instruction = MidiInstruction {
            position: Some(Position::new(0, 0)),
            instruction: MidiInstructionKind::Loop { body: Vec::new() },
        };
        assert(instruction@.kind->Loop_body =~= Seq::empty());
        instruction
    }

    /// `OutputCell` without a position.
    pub fn new_output() -> (instruction: MidiInstruction)
        ensures
            instruction@ == (InstructionView { position: None, kind: KindView::OutputCell }),
    {
        MidiInstruction { position: None, instruction: MidiInstructionKind::OutputCell }
    }

    /// `InputCell` without a position.
    pub fn new_input() -> (instruction: MidiInstruction)
        ensures
            instruction@ == (InstructionView { position: None, kind: KindView::InputCell }),
    {
        MidiInstruction { position: None, instruction: MidiInstructionKind::InputCell }
    }

    /// Stamps the instruction with the place it came from.
    pub fn set_position(&mut self, new_pos: Position)
        ensures
            final(self)@ == (InstructionView { position: Some(new_pos), kind: old(self)@.kind }),
    {
        self.position = Some(new_pos);
    }
}

impl Clone for MidiInstruction {
    fn clone(&self) -> (copy: MidiInstruction)
        ensures
            copy@ == self@,
    {
        MidiInstruction { position: self.position, instruction: self.instruction.clone() }
    }
}

impl Clone for MidiInstructionKind {
    fn clone(&self) -> (copy: MidiInstructionKind)
        ensures
            kind_view(copy) == kind_view(*self),
    {
        match self {
            MidiInstructionKind::IncrementCell { amount } => MidiInstructionKind::IncrementCell {
                amount: *amount,
            },
            MidiInstructionKind::MovePointer { amount } => MidiInstructionKind::MovePointer {
                amount: *amount,
            },
            MidiInstructionKind::OutputCell => MidiInstructionKind::OutputCell,
            MidiInstructionKind::InputCell => MidiInstructionKind::InputCell,
            MidiInstructionKind::Loop { body } => MidiInstructionKind::Loop {
                body: clone_program(body),
            },
        }
    }
}

/// What an instruction does, as a mathematical value.
pub open spec fn kind_view(kind: MidiInstructionKind) -> KindView {
    instruction_view(MidiInstruction { position: None, instruction: kind }).kind
}

/// A copy of `program` that shares nothing with it.
pub fn clone_program(program: &MidiAST) -> (copy: MidiAST)
    ensures
        program_view(copy@) == program_view(program@),
    decreases program,
{
    let mut copy: MidiAST = Vec::new();
    let mut i: usize = 0;
    while i < program.len()
        invariant
            i <= program.len(),
            program_view(copy@) == program_view(program@.take(i as int)),
        decreases program.len() - i,
    {
        let position = program[i].position;
        let instruction = match &program[i].instruction {
            MidiInstructionKind::IncrementCell { amount } => MidiInstructionKind::IncrementCell {
                amount: *amount,
            },
            MidiInstructionKind::MovePointer { amount } => MidiInstructionKind::MovePointer {
                amount: *amount,
            },
            MidiInstructionKind::OutputCell => MidiInstructionKind::OutputCell,
            MidiInstructionKind::InputCell => MidiInstructionKind::InputCell,
            MidiInstructionKind::Loop { body } => MidiInstructionKind::Loop {
                body: clone_program(body),
            },
        };
        let element = MidiInstruction { position, instruction };
        proof {
            assert(element@ == program[i as int]@);
            lemma_program_view_push(copy@, element);
            lemma_program_view_push(program@.take(i as int), program[i as int]);
            assert(program@.take(i as int).push(program[i as int]) =~= program@.take(i + 1));
        }
        copy.push(element);
        i += 1;
    }
    assert(program@.take(i as int) =~= program@);
    copy
}

/// What the parser gives back.
pub type MParseResult<T> = Result<T, MParseError>;

/// Why a stream of chords is no program.
#[derive(Debug, PartialEq)]
pub enum MParseError {
    /// The input holds no track at all.
    NoTracks,
    /// Loops were opened and never closed: the index of each opening
    /// marker, the outermost loop first.
    UnclosedLoop(Vec<Position>),
    /// A closing marker came while no loop was open: its index.
    DanglingLoop(Position),
    /// The root of a chord selects no operation.
    NonDiatonic,
}

impl View for MParseError {
    type V = ParseErrorView;

    open spec fn view(&self) -> ParseErrorView {
        match self {
            MParseError::NoTracks => ParseErrorView::NoTracks,
            MParseError::UnclosedLoop(positions) => ParseErrorView::UnclosedLoop(positions@),
            MParseError::DanglingLoop(position) => ParseErrorView::DanglingLoop(*position),
            MParseError::NonDiatonic => ParseErrorView::NonDiatonic,
        }
    }
}

/// The message that goes with an error.
pub open spec fn error_text(error: ParseErrorView) -> Seq<char> {
    match error {
        ParseErrorView::NoTracks => "File has no tracks to parse!"@,
        ParseErrorView::UnclosedLoop(positions) => "Unclosed loops starting at: ["@
            + positions_text(positions) + "]"@,
        ParseErrorView::DanglingLoop(position) => "Dangling loops starting at: "@ + position_text(
            position,
        ),
        ParseErrorView::NonDiatonic => "Non Diatonic note found"@,
    }
}

impl MParseError {
    /// The message that goes with the error.
    pub fn describe(&self) -> (text: String)
        ensures
            text@ == error_text(self@),
    {
        match self {
            MParseError::NoTracks => "File has no tracks to parse!".to_owned(),
            MParseError::UnclosedLoop(poss) => {
                let mut text = "Unclosed loops starting at: [".to_owned();
                text.append(crate::text::positions(poss).as_str());
                text.append("]");
                text
            },
            MParseError::DanglingLoop(pos) => {
                let mut text = "Dangling loops starting at: ".to_owned();
                text.append(pos.describe().as_str());
                text
            },
            MParseError::NonDiatonic => "Non Diatonic note found".to_owned(),
        }
    }
}

/// Nests a stream of instructions and loop markers into a tree.
pub struct MidiASTBuilder {
    body: MidiAST,
    size: usize,
    loop_stack: Vec<(MidiAST, usize)>,
}

impl View for MidiASTBuilder {
    type V = BuilderView;

    closed spec fn view(&self) -> BuilderView {
        BuilderView {
            body: program_view(self.body@),
            size: self.size as nat,
            loop_stack: Seq::new(
                self.loop_stack@.len(),
                |i: int|
                    OpenLoopView {
                        outer: program_view(self.loop_stack@[i].0@),
                        start: self.loop_stack@[i].1 as nat,
                    },
            ),
        }
    }
}

impl MidiASTBuilder {
    /// A builder that has taken nothing in.
    pub fn new() -> (builder: MidiASTBuilder)
        ensures
            builder@ == BuilderView::empty(),
            builder@.well_formed(),
    {
        let builder = MidiASTBuilder { body: Vec::new(), size: 0, loop_stack: Vec::new() };
        assert(builder@.body =~= Seq::empty());
        assert(builder@.loop_stack =~= Seq::empty());
        builder
    }

    /// How many instructions and markers were taken in.
    pub fn size(&self) -> (size: usize)
        ensures
            size == self@.size,
    {
        self.size
    }

    /// Takes in one instruction or marker. A closing marker that closes
    /// nothing is refused at once, and the builder stays as it was.
    pub fn push(&mut self, inst: MidiInstruction) -> (result: MParseResult<()>)
        requires
            old(self)@.well_formed(),
            old(self)@.size < usize::MAX,
        ensures
            match old(self)@.push(inst@) {
                Ok(next) => result is Ok && final(self)@ == next,
                Err(error) => result matches Err(e) && e@ == error && final(self)@ == old(self)@,
            },
            final(self)@.well_formed(),
    {
        proof {
            lemma_push_keeps_well_formed(old(self)@, inst@);
        }
        let mut inst = inst;
        let is_loop = match &inst.instruction {
            MidiInstructionKind::Loop { .. } => true,
            _ => false,
        };
        if is_loop && inst.position.is_some() {
            let mut outer: MidiAST = Vec::new();
            std::mem::swap(&mut self.body, &mut outer);
            self.loop_stack.push((outer, self.size));
            proof {
                assert(program_view(self.body@) =~= Seq::empty());
                assert(self@.loop_stack =~= old(self)@.loop_stack.push(
                    OpenLoopView { outer: old(self)@.body, start: old(self)@.size },
                ));
            }
        } else if is_loop {
            match self.loop_stack.pop() {
                Some((before_loop, loop_start)) => {
                    let mut before_loop = before_loop;
                    let mut interior: MidiAST = Vec::new();
                    std::mem::swap(&mut self.body, &mut interior);
                    let closed = MidiInstruction {
                        position: Some(Position::new(loop_start, self.size)),
                        instruction: MidiInstructionKind::Loop { body: interior },
                    };
                    proof {
                        lemma_program_view_push(before_loop@, closed);
                        assert(old(self)@.loop_stack.last().outer == program_view(before_loop@));
                        assert(self@.loop_stack =~= old(self)@.loop_stack.drop_last());
                    }
                    before_loop.push(closed);
                    self.body = before_loop;
                },
                None => {
                    return Err(MParseError::DanglingLoop(Position::new(self.size, self.size)));
                },
            }
        } else {
            inst.set_position(Position::new(self.size, self.size));
            proof {
                lemma_program_view_push(self.body@, inst);
                assert(self@.loop_stack =~= old(self)@.loop_stack);
            }
            self.body.push(inst);
        }
        self.size += 1;
        Ok(())
    }

    /// The finished program, or the opening index of every loop that is
    /// still open.
    pub fn into_mast(&self) -> (result: MParseResult<MidiAST>)
        requires
            self@.well_formed(),
        ensures
            match self@.finish() {
                Ok(program) => result matches Ok(p) && program_view(p@) == program,
                Err(error) => result matches Err(e) && e@ == error,
            },
            result matches Ok(p) ==> well_nested(program_view(p@)),
    {
        proof {
            lemma_finish_well_nested(self@);
        }
        if self.loop_stack.is_empty() {
            Ok(clone_program(&self.body))
        } else {
            let mut loops: Vec<Position> = Vec::new();
            let mut i: usize = 0;
            while i < self.loop_stack.len()
                invariant
                    i <= self.loop_stack.len(),
                    loops@ =~= self@.open_positions().take(i as int),
                decreases self.loop_stack.len() - i,
            {
                let start = self.loop_stack[i].1;
                loops.push(Position::new(start, start));
                i += 1;
            }
            assert(loops@ =~= self@.open_positions());
            Err(MParseError::UnclosedLoop(loops))
        }
    }
}

impl Default for MidiASTBuilder {
    fn default() -> (builder: MidiASTBuilder)
        ensures
            builder@ == BuilderView::empty(),
            builder@.well_formed(),
    {
        MidiASTBuilder::new()
    }
}

/// Two to the power of `gap`, wrapped into a signed byte.
fn wrapped_power_of_two(gap: u8) -> (power: i8)
    ensures
        power == wrap_i8(pow2(gap as nat) as int),
{
    let mut power: i8 = 1;
    let mut done: u8 = 0;
    proof {
        lemma2_to64();
    }
    while done < gap
        invariant
            done <= gap,
            power == wrap_i8(pow2(done as nat) as int),
        decreases gap - done,
    {
        proof {
            let before = pow2(done as nat) as int;
            lemma_pow2_unfold((done + 1) as nat);
            lemma_wrap_i8_add(before, before);
            lemma_wrap_i8_add(before, power as int);
        }
        power = power.wrapping_add(power);
        done += 1;
    }
    power
}

/// Where the base note of a chord stands, or the length of the chord where
/// it has none.
fn find_base(vals: &Vec<u8>, root: u8) -> (at: usize)
    requires
        vals@.len() > 0,
        root == chord_root(vals@),
    ensures
        at == base_index(vals@, 1),
        1 <= at <= vals@.len(),
{
    let mut at: usize = 1;
    while at < vals.len() && vals[at] == root
        invariant
            1 <= at <= vals.len(),
            root == chord_root(vals@),
            base_index(vals@, 1) == base_index(vals@, at as int),
        decreases vals.len() - at,
    {
        at += 1;
    }
    at
}

/// The weights of the notes that follow the base note, summed and
/// wrapped, or `None` where no note counts.
fn sum_weights(vals: &Vec<u8>, base_at: usize) -> (arg: Option<i8>)
    requires
        ascending(vals@),
        base_at < vals@.len(),
    ensures
        ({
            let weight = weight_sum(
                vals@.subrange(base_at + 1, vals@.len() as int),
                vals@[base_at as int],
                widest_gap(),
            );
            match arg {
                Some(sum) => weight != 0 && sum == wrap_i8(weight as int),
                None => weight == 0,
            }
        }),
{
    let len = vals.len();
    let bb = vals[base_at];
    let mut arg: Option<i8> = None;
    let mut at: usize = base_at + 1;
    let ghost notes = vals@;
    let ghost end = notes.len() as int;
    proof {
        assert(notes.subrange(base_at + 1, at as int) =~= Seq::<u8>::empty());
    }
    while at < len
        invariant_except_break
            base_at < at <= vals.len(),
        invariant
            len == vals.len(),
            notes == vals@,
            end == notes.len(),
            ascending(notes),
            bb == notes[base_at as int],
            base_at < at <= end,
            ({
                let seen = weight_sum(notes.subrange(base_at + 1, at as int), bb, widest_gap());
                match arg {
                    Some(sum) => seen != 0 && sum == wrap_i8(seen as int),
                    None => seen == 0,
                }
            }),
        ensures
            ({
                let all = weight_sum(notes.subrange(base_at + 1, end), bb, widest_gap());
                match arg {
                    Some(sum) => all != 0 && sum == wrap_i8(all as int),
                    None => all == 0,
                }
            }),
        decreases len - at,
    {
        let vv = vals[at];
        let ghost seen_notes = notes.subrange(base_at + 1, at as int);
        let ghost seen = weight_sum(seen_notes, bb, widest_gap());
        proof {
            assert(notes[base_at as int] <= notes[at as int]);
            lemma_weight_sum_push(seen_notes, vv, bb, widest_gap());
            assert(seen_notes.push(vv) =~= notes.subrange(base_at + 1, at + 1));
        }
        if vv != bb {
            let tmp = vv - bb - 1;
            if tmp > 8 {
                proof {
                    let rest = notes.subrange(at as int, end);
                    assert forall|i: int| 0 <= i < rest.len() implies !counts(
                        #[trigger] rest[i],
                        bb,
                        widest_gap(),
                    ) by {
                        assert(notes[at as int] <= notes[at + i]);
                    }
                    lemma_weight_sum_none(rest, bb, widest_gap());
                    lemma_weight_sum_concat(seen_notes, rest, bb, widest_gap());
                    assert(seen_notes + rest =~= notes.subrange(base_at + 1, end));
                }
                break ;
            }
            let to_add = wrapped_power_of_two(tmp);
            proof {
                lemma_pow2_pos(tmp as nat);
                lemma_wrap_i8_add(seen as int, pow2(tmp as nat) as int);
                lemma_wrap_i8_add(wrap_i8(seen as int), pow2(tmp as nat) as int);
            }
            arg = Some(
                match arg {
                    Some(sum) => sum.wrapping_add(to_add),
                    None => to_add,
                },
            );
        }
        at += 1;
    }
    arg
}

/// Decodes one chord: the pitch class of its lowest note and the amount
/// that its other notes encode are handed to `key`, which picks the
/// instruction.
///
/// A gap of seven or eight is wider than a signed byte holds: its weight
/// wraps, to -128 and to 0.
pub fn parse_chord<F: Fn(u8, i8) -> MParseResult<MidiInstruction>>(vals: Vec<u8>, key: &F) -> (result:
    MParseResult<MidiInstruction>)
    requires
        vals@.len() > 0,
        ascending(vals@),
        key.requires((chord_root(vals@), chord_amount(vals@) as i8)),
    ensures
        key.ensures((chord_root(vals@), chord_amount(vals@) as i8), result),
{
    let root = vals[0] % 12;
    let base_at = find_base(&vals, root);
    let amount = if base_at < vals.len() {
        match sum_weights(&vals, base_at) {
            Some(sum) => sum,
            None => 1,
        }
    } else {
        1
    };
    proof {
        lemma_wrap_i8_periodic(chord_weight(vals@, widest_gap()) as int, 0);
    }
    key(root, amount)
}

/// Decodes the notes of one chord in C major, whatever order they come
/// in: the notes are sorted, and the sorted chord is decoded.
pub fn program_key(vals: Vec<u8>) -> (result: MParseResult<MidiInstruction>)
    requires
        vals@.len() > 0,
    ensures
        decoded(result) == match decode_chord(sorted_notes(vals@)) {
            Some(instruction) => Ok::<InstructionView, ParseErrorView>(instruction),
            None => Err(ParseErrorView::NonDiatonic),
        },
{
    let mut sorted: Vec<u8> = Vec::new();
    let mut i: usize = 0;
    proof {
        assert(vals@.take(0) =~= Seq::<u8>::empty());
    }
    while i < vals.len()
        invariant
            i <= vals.len(),
            ascending(sorted@),
            sorted@ == sorted_notes(vals@.take(i as int)),
            sorted@.len() == i,
        decreases vals.len() - i,
    {
        proof {
            assert(vals@.take(i + 1).drop_last() =~= vals@.take(i as int));
        }
        insert_note(&mut sorted, vals[i]);
        i += 1;
    }
    proof {
        assert(vals@.take(i as int) =~= vals@);
    }
    parse_chord(sorted, &c_major)
}

/// The operation that a pitch class selects in C major. The amount goes
/// unused where the operation takes none.
pub fn c_major(root: u8, arg: i8) -> (result: MParseResult<MidiInstruction>)
    ensures
        decoded(result) == match diatonic(root, arg as int) {
            Some(instruction) => Ok::<InstructionView, ParseErrorView>(instruction),
            None => Err(ParseErrorView::NonDiatonic),
        },
{
    match root {
        0 => Ok(MidiInstruction::new_close_loop()),
        2 => Ok(MidiInstruction::new_move(-(arg as isize))),
        4 => Ok(MidiInstruction::new_move(arg as isize)),
        5 => Ok(MidiInstruction::new_inc(Cell(arg).wrapping_neg())),
        7 => Ok(MidiInstruction::new_open_loop()),
        9 => Ok(MidiInstruction::new_inc(Cell(arg))),
        11 => if arg == 1 {
            Ok(MidiInstruction::new_input())
        } else {
            Ok(MidiInstruction::new_output())
        },
        _ => Err(MParseError::NonDiatonic),
    }
}

/// Puts `key` among the ascending `notes`, after the notes that equal it.
pub(crate) fn insert_note(notes: &mut Vec<u8>, key: u8)
    requires
        ascending(old(notes)@),
    ensures
        final(notes)@ == with_note(old(notes)@, key),
        ascending(final(notes)@),
        final(notes)@.len() == old(notes)@.len() + 1,
{
    let mut at: usize = notes.len();
    while at > 0 && notes[at - 1] > key
        invariant
            at <= notes.len(),
            notes@ == old(notes)@,
            ascending(notes@),
            forall|i: int| at <= i < notes.len() ==> key < notes[i],
        decreases at,
    {
        at -= 1;
    }
    proof {
        assert forall|i: int| 0 <= i < at implies notes[i] <= key by {
            assert(notes[i] <= notes[at - 1]);
        }
        lemma_with_note(notes@, key, at as int);
    }
    notes.insert(at, key);
}

/// Takes in one event of a track.
fn scan_event(
    builder: &mut MidiASTBuilder,
    held: &mut Vec<u8>,
    notes_on: &mut i128,
    event: NoteEvent,
) -> (result: MParseResult<()>)
    requires
        old(builder)@.size < usize::MAX,
        i128::MIN < *old(notes_on) < i128::MAX,
        (ScanView {
            builder: old(builder)@,
            held: old(held)@,
            notes_on: *old(notes_on) as int,
        }).well_formed(),
    ensures
        match (ScanView {
            builder: old(builder)@,
            held: old(held)@,
            notes_on: *old(notes_on) as int,
        }).event(event) {
            Ok(next) => {
                &&& result is Ok
                &&& next == (ScanView {
                    builder: final(builder)@,
                    held: final(held)@,
                    notes_on: *final(notes_on) as int,
                })
                &&& next.well_formed()
                &&& final(builder)@.size <= old(builder)@.size + 1
                &&& old(notes_on) - 1 <= *final(notes_on) <= old(notes_on) + 1
            },
            Err(error) => result matches Err(e) && e@ == error,
        },
{
    match event {
        NoteEvent::NoteOn { key } => {
            insert_note(held, key);
            *notes_on += 1;
        },
        NoteEvent::NoteOff { .. } => {
            *notes_on -= 1;
            if *notes_on == 0 {
                let mut chord: Vec<u8> = Vec::new();
                std::mem::swap(held, &mut chord);
                let node = parse_chord(chord, &c_major)?;
                builder.push(node)?;
            }
        },
        NoteEvent::Other => {},
    }
    Ok(())
}

/// Takes in the events of one track, from the first on.
fn scan_track(builder: &mut MidiASTBuilder, held: &mut Vec<u8>, track: &Track) -> (result:
    MParseResult<()>)
    requires
        old(builder)@.size + track@.len() <= usize::MAX,
        old(builder)@.well_formed(),
        ascending(old(held)@),
    ensures
        match (ScanView { builder: old(builder)@, held: old(held)@, notes_on: 0 }).track(
            track@,
        ) {
            Ok(next) => {
                &&& result is Ok
                &&& next.builder == final(builder)@
                &&& next.held == final(held)@
                &&& ascending(final(held)@)
                &&& final(builder)@.well_formed()
                &&& final(builder)@.size <= old(builder)@.size + track@.len()
            },
            Err(error) => result matches Err(e) && e@ == error,
        },
{
    let ghost fresh = ScanView { builder: old(builder)@, held: old(held)@, notes_on: 0 };
    let mut notes_on: i128 = 0;
    let mut i: usize = 0;
    proof {
        assert(track@.take(0) =~= Seq::<NoteEvent>::empty());
    }
    while i < track.len()
        invariant
            i <= track.len(),
            -i <= notes_on <= i,
            fresh == (ScanView { builder: old(builder)@, held: old(held)@, notes_on: 0 }),
            builder@.size <= fresh.builder.size + i,
            fresh.builder.size + track@.len() <= usize::MAX,
            fresh.events(track@.take(i as int)) matches Ok(now) && now.well_formed() && now == (
            ScanView { builder: builder@, held: held@, notes_on: notes_on as int }),
        decreases track.len() - i,
    {
        proof {
            let now = ScanView { builder: builder@, held: held@, notes_on: notes_on as int };
            assert(track@.take(i + 1).drop_last() =~= track@.take(i as int));
            assert(track@.take(i + 1).last() == track@[i as int]);
            assert(fresh.events(track@.take(i + 1)) == now.event(track@[i as int]));
        }
        match scan_event(builder, held, &mut notes_on, track[i]) {
            Ok(()) => {},
            Err(error) => {
                proof {
                    lemma_events_error_stays(fresh, track@, i + 1, error@);
                }
                return Err(error);
            },
        }
        i += 1;
    }
    proof {
        assert(track@.take(i as int) =~= track@);
    }
    Ok(())
}

/// Reads the program out of the tracks of a file: groups the notes into
/// chords, decodes each chord in C major and nests the instructions.
pub fn parse(midi: Vec<Track>) -> (result: MParseResult<MidiAST>)
    requires
        event_count(tracks_view(midi@)) <= usize::MAX,
    ensures
        parsed(result) == parse_tracks(tracks_view(midi@)),
        result matches Ok(program) ==> well_nested(program_view(program@)),
{
    let mut ast_builder = MidiASTBuilder::new();
    if midi.is_empty() {
        return Err(MParseError::NoTracks);
    }
    let ghost tracks = tracks_view(midi@);
    let mut current_node: Vec<u8> = Vec::new();
    let mut t: usize = 0;
    while t < midi.len()
        invariant
            t <= midi.len(),
            tracks == tracks_view(midi@),
            event_count(tracks) <= usize::MAX,
            ascending(current_node@),
            ast_builder@.well_formed(),
            ast_builder@.size <= event_count(tracks.take(t as int)),
            ScanView::start().tracks(tracks.take(t as int)) matches Ok(scan) && scan.builder
                == ast_builder@ && scan.held == current_node@,
        decreases midi.len() - t,
    {
        proof {
            assert(tracks.take(t + 1).drop_last() =~= tracks.take(t as int));
            lemma_event_count_take(tracks, t as int);
            lemma_event_count_take(tracks, t + 1);
        }
        match scan_track(&mut ast_builder, &mut current_node, &midi[t]) {
            Ok(()) => {},
            Err(error) => {
                proof {
                    lemma_tracks_error_stays(ScanView::start(), tracks, t + 1, error@);
                }
                return Err(error);
            },
        }
        t += 1;
    }
    proof {
        assert(tracks.take(t as int) =~= tracks);
    }
    ast_builder.into_mast()
}

} // verus!
