//! What a chord means: its root, the amount that its other notes encode,
//! and the operation that the two select.

use crate::cell::wrap_i8;
use crate::parser::model::{close_marker, open_marker, InstructionView, KindView, ParseErrorView};
use crate::parser::{MParseResult, MidiInstruction};
use vstd::arithmetic::power2::pow2;
use vstd::prelude::*;

verus! {

/// The notes of a chord come lowest first.
pub open spec fn ascending(notes: Seq<u8>) -> bool {
    forall|i: int, j: int| 0 <= i <= j < notes.len() ==> notes[i] <= notes[j]
}

/// The pitch class of the lowest note, which selects the operation.
pub open spec fn chord_root(notes: Seq<u8>) -> u8 {
    (notes[0] % 12) as u8
}

/// Where the base note stands: at the first index from `from` on whose note
/// differs from the pitch class of the root. It is the length of the chord
/// where there is no such note.
pub open spec fn base_index(notes: Seq<u8>, from: int) -> int
    decreases notes.len() - from,
{
    if from < 0 || from >= notes.len() {
        notes.len() as int
    } else if notes[from] != chord_root(notes) {
        from
    } else {
        base_index(notes, from + 1)
    }
}

/// A note above the base counts as long as the gap between the two is no
/// wider than `widest`.
pub open spec fn counts(note: u8, base: u8, widest: int) -> bool {
    base < note && note - base - 1 <= widest
}

/// What one note adds to the amount: two to the power of its gap, or
/// nothing where it does not count.
pub open spec fn note_weight(note: u8, base: u8, widest: int) -> nat {
    if counts(note, base, widest) {
        pow2((note - base - 1) as nat)
    } else {
        0
    }
}

/// The sum of the weights of `notes`, unbounded.
pub open spec fn weight_sum(notes: Seq<u8>, base: u8, widest: int) -> nat
    decreases notes.len(),
{
    if notes.len() == 0 {
        0
    } else {
        weight_sum(notes.drop_last(), base, widest) + note_weight(notes.last(), base, widest)
    }
}

/// The sum of the weights of the notes that follow the base note, or zero
/// where the chord has no base note.
pub open spec fn chord_weight(notes: Seq<u8>, widest: int) -> nat {
    let base = base_index(notes, 1);
    if base < notes.len() {
        weight_sum(notes.subrange(base + 1, notes.len() as int), notes[base], widest)
    } else {
        0
    }
}

/// The widest gap that still counts towards a signed byte.
pub open spec fn widest_gap() -> int {
    8
}

/// The amount that a chord encodes: the weights of the notes above its base
/// note, summed and wrapped into a signed byte, and 1 where no note counts.
pub open spec fn chord_amount(notes: Seq<u8>) -> int {
    let weight = chord_weight(notes, widest_gap());
    if weight == 0 {
        1
    } else {
        wrap_i8(weight as int)
    }
}

/// The operation that a pitch class selects in C major, with its amount.
pub open spec fn diatonic(root: u8, amount: int) -> Option<InstructionView> {
    if root == 0 {
        Some(close_marker())
    } else if root == 2 {
        Some(InstructionView { position: None, kind: KindView::MovePointer { amount: -amount } })
    } else if root == 4 {
        Some(InstructionView { position: None, kind: KindView::MovePointer { amount } })
    } else if root == 5 {
        Some(
            InstructionView {
                position: None,
                kind: KindView::IncrementCell { amount: wrap_i8(-amount) },
            },
        )
    } else if root == 7 {
        Some(open_marker())
    } else if root == 9 {
        Some(InstructionView { position: None, kind: KindView::IncrementCell { amount } })
    } else if root == 11 {
        if amount == 1 {
            Some(InstructionView { position: None, kind: KindView::InputCell })
        } else {
            Some(InstructionView { position: None, kind: KindView::OutputCell })
        }
    } else {
        None
    }
}

/// The instruction that a chord stands for in C major, if its root is
/// diatonic.
pub open spec fn decode_chord(notes: Seq<u8>) -> Option<InstructionView> {
    diatonic(chord_root(notes), chord_amount(notes))
}

/// A result as a value: the view of the instruction, or the error.
pub open spec fn decoded(result: MParseResult<MidiInstruction>) -> Result<
    InstructionView,
    ParseErrorView,
> {
    match result {
        Ok(instruction) => Ok(instruction@),
        Err(error) => Err(error@),
    }
}

/// A sum of weights grows by the weight of a note that is appended.
pub proof fn lemma_weight_sum_push(notes: Seq<u8>, note: u8, base: u8, widest: int)
    ensures
        weight_sum(notes.push(note), base, widest) == weight_sum(notes, base, widest)
            + note_weight(note, base, widest),
{
    assert(notes.push(note).drop_last() =~= notes);
}

/// Notes that do not count add nothing.
pub proof fn lemma_weight_sum_none(notes: Seq<u8>, base: u8, widest: int)
    requires
        forall|i: int| 0 <= i < notes.len() ==> !counts(#[trigger] notes[i], base, widest),
    ensures
        weight_sum(notes, base, widest) == 0,
    decreases notes.len(),
{
    if notes.len() > 0 {
        lemma_weight_sum_none(notes.drop_last(), base, widest);
    }
}

/// The weights of two runs of notes add up.
pub proof fn lemma_weight_sum_concat(front: Seq<u8>, back: Seq<u8>, base: u8, widest: int)
    ensures
        weight_sum(front + back, base, widest) == weight_sum(front, base, widest) + weight_sum(
            back,
            base,
            widest,
        ),
    decreases back.len(),
{
    if back.len() == 0 {
        assert(front + back =~= front);
    } else {
        assert((front + back).drop_last() =~= front + back.drop_last());
        lemma_weight_sum_concat(front, back.drop_last(), base, widest);
    }
}


} // verus!
