//! What holds of the decoder and of the builder on every input.

use crate::cell::lemma_wrap_i8_in_range;
use crate::parser::chord::{
    ascending, base_index, chord_amount, chord_root, chord_weight, counts, decode_chord,
    diatonic, lemma_weight_sum_push, weight_sum, widest_gap,
};
use crate::parser::model::{
    close_marker, open_marker, single, build, BuilderView, InstructionView, KindView,
    OpenLoopView, ParseErrorView,
};
use crate::parser::Position;
use vstd::arithmetic::div_mod::lemma_mod_breakdown;
use vstd::arithmetic::power2::{lemma2_to64, lemma_pow2_pos, lemma_pow2_unfold, pow2};
use vstd::prelude::*;

verus! {

/// The pitch classes that select an operation.
pub open spec fn is_diatonic(root: u8) -> bool {
    root == 0 || root == 2 || root == 4 || root == 5 || root == 7 || root == 9 || root == 11
}

/// The notes that spell the lowest `bits` binary digits of `amount` above a
/// base note: for each digit that is one, the note that lies one more than
/// the digit's place above the base.
pub open spec fn digit_notes(base: u8, amount: int, bits: nat) -> Seq<u8>
    decreases bits,
{
    if bits == 0 {
        Seq::empty()
    } else {
        let lower = digit_notes(base, amount, (bits - 1) as nat);
        if (amount / (pow2((bits - 1) as nat) as int)) % 2 == 1 {
            lower.push((base + bits) as u8)
        } else {
            lower
        }
    }
}

/// The chord that encodes `amount`: a lowest note, a base note, and the
/// notes that spell the seven binary digits of the amount.
pub open spec fn chord_of(low: u8, base: u8, amount: int) -> Seq<u8> {
    seq![low, base] + digit_notes(base, amount, 7)
}

/// The notes that spell an amount lie above the base, in ascending order,
/// and weigh as much as the digits they spell.
pub proof fn lemma_digit_notes(base: u8, amount: int, bits: nat)
    requires
        0 <= amount,
        bits <= 9,
        base + bits <= u8::MAX,
    ensures
        ascending(digit_notes(base, amount, bits)),
        forall|i: int|
            0 <= i < digit_notes(base, amount, bits).len() ==> base < #[trigger] digit_notes(
                base,
                amount,
                bits,
            )[i] <= base + bits,
        weight_sum(digit_notes(base, amount, bits), base, widest_gap()) == amount % (pow2(
            bits,
        ) as int),
    decreases bits,
{
    lemma2_to64();
    if bits > 0 {
        let place = (bits - 1) as nat;
        let lower = digit_notes(base, amount, place);
        let note = (base + bits) as u8;
        lemma_digit_notes(base, amount, place);
        lemma_pow2_pos(place);
        lemma_pow2_unfold(bits);
        lemma_mod_breakdown(amount, pow2(place) as int, 2);
        assert(pow2(bits) as int == (pow2(place) as int) * 2) by (nonlinear_arith)
            requires
                pow2(bits) == 2 * pow2(place),
        ;
        if (amount / (pow2(place) as int)) % 2 == 1 {
            lemma_weight_sum_push(lower, note, base, widest_gap());
            assert(counts(note, base, widest_gap()));
            assert((pow2(place) as int) * 1 == pow2(place) as int);
        } else {
            assert((pow2(place) as int) * 0 == 0);
        }
    }
}

/// Decoding undoes encoding: the chord that spells an amount between 1 and
/// 127 above a base note decodes to the operation that the pitch class of
/// its lowest note selects, with that amount.
pub proof fn lemma_chord_round_trip(low: u8, base: u8, amount: int)
    requires
        1 <= amount <= 127,
        low <= base,
        base != low % 12,
        base + 7 <= u8::MAX,
    ensures
        ascending(chord_of(low, base, amount)),
        chord_root(chord_of(low, base, amount)) == low % 12,
        chord_amount(chord_of(low, base, amount)) == amount,
        decode_chord(chord_of(low, base, amount)) == diatonic((low % 12) as u8, amount),
{
    let chord = chord_of(low, base, amount);
    let digits = digit_notes(base, amount, 7);
    lemma_digit_notes(base, amount, 7);
    lemma2_to64();
    assert(chord.subrange(2, chord.len() as int) =~= digits);
    assert(base_index(chord, 1) == 1);
    assert(chord_weight(chord, widest_gap()) == amount);
    lemma_wrap_i8_in_range(amount);
    assert forall|i: int, j: int| 0 <= i <= j < chord.len() implies chord[i] <= chord[j] by {
        if i >= 2 {
            assert(digits[i - 2] <= digits[j - 2]);
        } else if j >= 2 {
            assert(base < digits[j - 2]);
        }
    }
}

/// A chord decodes to an operation exactly when the pitch class of its
/// lowest note is diatonic.
pub proof fn lemma_decodes_iff_diatonic(notes: Seq<u8>)
    ensures
        decode_chord(notes) is Some <==> is_diatonic(chord_root(notes)),
{
}

/// A chord of one note encodes the amount 1.
pub proof fn lemma_lone_root_amount(note: u8)
    ensures
        chord_amount(seq![note]) == 1,
        decode_chord(seq![note]) == diatonic((note % 12) as u8, 1),
{
    assert(base_index(seq![note], 1) == 1);
}

/// Leaves, each stamped with the index at which it came in.
pub open spec fn stamped(leaves: Seq<InstructionView>, first: nat) -> Seq<InstructionView> {
    Seq::new(
        leaves.len(),
        |i: int| InstructionView { position: Some(single((first + i) as nat)), kind: leaves[i].kind },
    )
}

/// Leaves go into the current body one after the other and leave the open
/// loops alone.
pub proof fn lemma_push_leaves(builder: BuilderView, leaves: Seq<InstructionView>)
    requires
        forall|i: int| 0 <= i < leaves.len() ==> (#[trigger] leaves[i]).is_leaf(),
    ensures
        builder.push_all(leaves) == Ok::<BuilderView, ParseErrorView>(
            BuilderView {
                body: builder.body + stamped(leaves, builder.size),
                size: builder.size + leaves.len(),
                loop_stack: builder.loop_stack,
            },
        ),
    decreases leaves.len(),
{
    if leaves.len() == 0 {
        assert(builder.body + stamped(leaves, builder.size) =~= builder.body);
    } else {
        let front = leaves.drop_last();
        lemma_push_leaves(builder, front);
        assert(leaves.last().is_leaf());
        assert((builder.body + stamped(front, builder.size)).push(
            InstructionView {
                position: Some(single(builder.size + front.len())),
                kind: leaves.last().kind,
            },
        ) =~= builder.body + stamped(leaves, builder.size));
    }
}

/// A stream of `n` leaves builds a program of `n` instructions, and the
/// leaf that came in at index `i` stands at index `i` with the position
/// `(i, i)`.
pub proof fn lemma_flat_program(leaves: Seq<InstructionView>)
    requires
        forall|i: int| 0 <= i < leaves.len() ==> (#[trigger] leaves[i]).is_leaf(),
    ensures
        build(leaves) matches Ok(program) && program.len() == leaves.len() && forall|i: int|
            0 <= i < leaves.len() ==> #[trigger] program[i] == (InstructionView {
                position: Some(single(i as nat)),
                kind: leaves[i].kind,
            }),
{
    lemma_push_leaves(BuilderView::empty(), leaves);
    assert(BuilderView::empty().body + stamped(leaves, 0) =~= stamped(leaves, 0));
}

/// A loop around leaves: the opening marker, the leaves, the closing
/// marker. It builds one `Loop` that spans all of them and holds the
/// leaves, stamped, as its body.
pub proof fn lemma_simple_loop(leaves: Seq<InstructionView>)
    requires
        forall|i: int| 0 <= i < leaves.len() ==> (#[trigger] leaves[i]).is_leaf(),
        leaves.len() < usize::MAX,
    ensures
        build((seq![open_marker()] + leaves).push(close_marker())) == Ok::<
            Seq<InstructionView>,
            ParseErrorView,
        >(
            seq![
                InstructionView {
                    position: Some(
                        Position { start: 0, end: (leaves.len() + 1) as usize },
                    ),
                    kind: KindView::Loop { body: stamped(leaves, 1) },
                },
            ],
        ),
{
    let opened = BuilderView {
        body: Seq::empty(),
        size: 1,
        loop_stack: seq![OpenLoopView { outer: Seq::empty(), start: 0 }],
    };
    let stream = seq![open_marker()] + leaves;
    assert(BuilderView::empty().push_all(seq![open_marker()]) == Ok::<
        BuilderView,
        ParseErrorView,
    >(opened)) by {
        reveal_with_fuel(BuilderView::push_all, 2);
        assert(seq![open_marker()].drop_last() =~= Seq::<InstructionView>::empty());
        assert(seq![open_marker()].last() == open_marker());
        assert(BuilderView::empty().push(open_marker())->Ok_0.loop_stack =~= opened.loop_stack);
    }
    lemma_push_all_concat(BuilderView::empty(), seq![open_marker()], leaves);
    lemma_push_leaves(opened, leaves);
    assert(stream.push(close_marker()).drop_last() =~= stream);
    let filled = BuilderView::empty().push_all(stream)->Ok_0;
    assert(filled.body =~= stamped(leaves, 1));
    assert(filled.loop_stack.drop_last() =~= Seq::<OpenLoopView>::empty());
    let closed = filled.push(close_marker())->Ok_0;
    assert(closed.body =~= seq![
        InstructionView {
            position: Some(Position { start: 0, end: (leaves.len() + 1) as usize }),
            kind: KindView::Loop { body: stamped(leaves, 1) },
        },
    ]);
}

/// Taking in one stream and then another is taking in the two joined.
pub proof fn lemma_push_all_concat(
    builder: BuilderView,
    first: Seq<InstructionView>,
    second: Seq<InstructionView>,
)
    ensures
        builder.push_all(first + second) == match builder.push_all(first) {
            Ok(between) => between.push_all(second),
            Err(error) => Err(error),
        },
    decreases second.len(),
{
    if second.len() == 0 {
        assert(first + second =~= first);
    } else {
        assert((first + second).drop_last() =~= first + second.drop_last());
        lemma_push_all_concat(builder, first, second.drop_last());
    }
}

/// A closing marker that comes while no loop is open is refused at once,
/// with the index at which it came.
pub proof fn lemma_dangling_close(builder: BuilderView)
    requires
        builder.loop_stack.len() == 0,
    ensures
        builder.push(close_marker()) == Err::<BuilderView, ParseErrorView>(
            ParseErrorView::DanglingLoop(single(builder.size)),
        ),
{
}

/// A builder reports every loop that is open when it is asked for the
/// program: one position for each, and none where all are closed.
pub proof fn lemma_unclosed_loops(builder: BuilderView)
    ensures
        builder.finish() is Ok <==> builder.loop_stack.len() == 0,
        builder.finish() matches Err(error) ==> error matches ParseErrorView::UnclosedLoop(
            positions,
        ) && positions.len() == builder.loop_stack.len() && forall|i: int|
            0 <= i < positions.len() ==> #[trigger] positions[i] == single(
                builder.loop_stack[i].start,
            ),
{
}

/// One more instruction after a stream is one more step of the builder.
pub proof fn lemma_push_all_push(
    builder: BuilderView,
    stream: Seq<InstructionView>,
    incoming: InstructionView,
)
    ensures
        builder.push_all(stream.push(incoming)) == match builder.push_all(stream) {
            Ok(between) => between.push(incoming),
            Err(error) => Err(error),
        },
{
    assert(stream.push(incoming).drop_last() =~= stream);
}

/// A leaf, then a loop that holds a leaf and a loop around a third leaf:
/// seven instructions and markers build a program of two instructions,
/// whose second is a loop that spans the indices 1 to 6 and holds a loop
/// that spans the indices 3 to 5.
pub proof fn lemma_nested_loop(x: InstructionView, y: InstructionView, z: InstructionView)
    requires
        x.is_leaf(),
        y.is_leaf(),
        z.is_leaf(),
    ensures
        build(seq![x, open_marker(), y, open_marker(), z, close_marker(), close_marker()])
            == Ok::<Seq<InstructionView>, ParseErrorView>(
            seq![
                InstructionView { position: Some(single(0)), kind: x.kind },
                InstructionView {
                    position: Some(Position { start: 1, end: 6 }),
                    kind: KindView::Loop {
                        body: seq![
                            InstructionView { position: Some(single(2)), kind: y.kind },
                            InstructionView {
                                position: Some(Position { start: 3, end: 5 }),
                                kind: KindView::Loop {
                                    body: seq![
                                        InstructionView {
                                            position: Some(single(4)),
                                            kind: z.kind,
                                        },
                                    ],
                                },
                            },
                        ],
                    },
                },
            ],
        ),
{
    let start = BuilderView::empty();
    let s0 = Seq::<InstructionView>::empty();
    let s1 = s0.push(x);
    let s2 = s1.push(open_marker());
    let s3 = s2.push(y);
    let s4 = s3.push(open_marker());
    let s5 = s4.push(z);
    let s6 = s5.push(close_marker());
    let s7 = s6.push(close_marker());
    assert(s7 =~= seq![x, open_marker(), y, open_marker(), z, close_marker(), close_marker()]);
    lemma_push_all_push(start, s0, x);
    lemma_push_all_push(start, s1, open_marker());
    lemma_push_all_push(start, s2, y);
    lemma_push_all_push(start, s3, open_marker());
    lemma_push_all_push(start, s4, z);
    lemma_push_all_push(start, s5, close_marker());
    lemma_push_all_push(start, s6, close_marker());
    let x_at = InstructionView { position: Some(single(0)), kind: x.kind };
    let y_at = InstructionView { position: Some(single(2)), kind: y.kind };
    let z_at = InstructionView { position: Some(single(4)), kind: z.kind };
    let outer = OpenLoopView { outer: seq![x_at], start: 1 };
    let inner = OpenLoopView { outer: seq![y_at], start: 3 };
    let b1 = start.push_all(s1)->Ok_0;
    assert(b1.body =~= seq![x_at]);
    let b2 = start.push_all(s2)->Ok_0;
    assert(b2.loop_stack =~= seq![outer]);
    let b3 = start.push_all(s3)->Ok_0;
    assert(b3.body =~= seq![y_at]);
    let b4 = start.push_all(s4)->Ok_0;
    assert(b4.loop_stack =~= seq![outer, inner]);
    let b5 = start.push_all(s5)->Ok_0;
    assert(b5.body =~= seq![z_at]);
    let inner_loop = InstructionView {
        position: Some(Position { start: 3, end: 5 }),
        kind: KindView::Loop { body: seq![z_at] },
    };
    let b6 = start.push_all(s6)->Ok_0;
    assert(b6.loop_stack =~= seq![outer]);
    assert(b6.body =~= seq![y_at, inner_loop]);
    let outer_loop = InstructionView {
        position: Some(Position { start: 1, end: 6 }),
        kind: KindView::Loop { body: seq![y_at, inner_loop] },
    };
    let b7 = start.push_all(s7)->Ok_0;
    assert(b7.loop_stack =~= Seq::<OpenLoopView>::empty());
    assert(b7.body =~= seq![x_at, outer_loop]);
}

} // verus!
