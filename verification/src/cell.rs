//! The unit of storage of the tape machine: one signed byte that wraps around.

use vstd::prelude::*;

verus! {

/// The value that an integer takes once it is stored in one signed byte:
/// the one member of `-128..=127` that differs from `x` by a multiple of 256.
pub open spec fn wrap_i8(x: int) -> int {
    (x + 128) % 256 - 128
}

/// The content of a cell after `amount` was added to it `times` times over,
/// each addition wrapping.
pub open spec fn incremented(start: int, amount: int, times: nat) -> int
    decreases times,
{
    if times == 0 {
        start
    } else {
        wrap_i8(incremented(start, amount, (times - 1) as nat) + amount)
    }
}

/// One cell of the tape.
#[derive(Clone, Copy, Debug, PartialEq, Eq, Structural)]
pub struct Cell(pub i8);

impl View for Cell {
    type V = int;

    open spec fn view(&self) -> int {
        self.0 as int
    }
}

impl Cell {
    /// The cell that holds `self + amount`, wrapped into a signed byte.
    pub fn wrapping_add(self, amount: Cell) -> (sum: Cell)
        ensures
            sum@ == wrap_i8(self@ + amount@),
    {
        Cell(self.0.wrapping_add(amount.0))
    }

    /// The cell that holds `-self`, wrapped into a signed byte, so that the
    /// negation of -128 is -128.
    pub fn wrapping_neg(self) -> (negated: Cell)
        ensures
            negated@ == wrap_i8(-self@),
    {
        Cell(0i8.wrapping_sub(self.0))
    }
}

/// Wrapping leaves a value that already fits in a signed byte as it is.
pub proof fn lemma_wrap_i8_in_range(x: int)
    requires
        -128 <= x <= 127,
    ensures
        wrap_i8(x) == x,
{
}

/// Wrapping depends only on the residue modulo 256.
pub proof fn lemma_wrap_i8_periodic(x: int, k: int)
    ensures
        wrap_i8(x + 256 * k) == wrap_i8(x),
        -128 <= wrap_i8(x) <= 127,
{
    vstd::arithmetic::div_mod::lemma_mod_multiples_vanish(k, x + 128, 256);
}

/// Wrapping an operand before a wrapping addition changes nothing.
pub proof fn lemma_wrap_i8_add(x: int, y: int)
    ensures
        wrap_i8(wrap_i8(x) + y) == wrap_i8(x + y),
        wrap_i8(x + wrap_i8(y)) == wrap_i8(x + y),
{
    let kx = (x + 128) / 256;
    let ky = (y + 128) / 256;
    assert(wrap_i8(x) == x - 256 * kx);
    assert(wrap_i8(y) == y - 256 * ky);
    lemma_wrap_i8_periodic(x + y, -kx);
    lemma_wrap_i8_periodic(x + y, -ky);
    assert(wrap_i8(x) + y == x + y + 256 * (-kx));
    assert(x + wrap_i8(y) == x + y + 256 * (-ky));
}

/// Repeated wrapping addition is one wrapped multiplication.
pub proof fn lemma_incremented_closed_form(start: int, amount: int, times: nat)
    requires
        -128 <= start <= 127,
    ensures
        incremented(start, amount, times) == wrap_i8(start + times * amount),
    decreases times,
{
    if times == 0 {
        assert(times * amount == 0) by (nonlinear_arith)
            requires
                times == 0,
        ;
    } else {
        let before = (times - 1) as nat;
        lemma_incremented_closed_form(start, amount, before);
        lemma_wrap_i8_add(start + before * amount, amount);
        assert(before * amount + amount == times * amount) by (nonlinear_arith)
            requires
                before == times - 1,
        ;
    }
}

/// Adding any one amount to a cell 256 times over brings the cell back to
/// the value it started from.
pub proof fn lemma_increment_cycle(start: Cell, amount: Cell)
    ensures
        incremented(start@, amount@, 256) == start@,
{
    lemma_incremented_closed_form(start@, amount@, 256);
    lemma_wrap_i8_periodic(start@, amount@);
}

} // verus!
