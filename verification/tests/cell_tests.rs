use midilang::cell::Cell;

#[test]
fn increment_wraps_at_both_ends() {
    assert_eq!(Cell(1).wrapping_add(Cell(127)), Cell(-128));
    assert_eq!(Cell(127).wrapping_add(Cell(1)), Cell(-128));
    assert_eq!(Cell(-128).wrapping_add(Cell(-1)), Cell(127));
    assert_eq!(Cell(-100).wrapping_add(Cell(-100)), Cell(56));
    assert_eq!(Cell(5).wrapping_add(Cell(-7)), Cell(-2));
}

#[test]
fn increment_comes_round_after_256_steps() {
    for start in i8::MIN..=i8::MAX {
        for amount in [1i8, -1, 3, 127, -128] {
            let mut cell = Cell(start);
            for step in 1..=256 {
                cell = cell.wrapping_add(Cell(amount));
                if amount == 1 && step < 256 {
                    assert_ne!(cell, Cell(start));
                }
            }
            assert_eq!(cell, Cell(start));
        }
    }
}

#[test]
fn negation_wraps_at_the_lowest_value() {
    assert_eq!(Cell(1).wrapping_neg(), Cell(-1));
    assert_eq!(Cell(-127).wrapping_neg(), Cell(127));
    assert_eq!(Cell(0).wrapping_neg(), Cell(0));
    assert_eq!(Cell(-128).wrapping_neg(), Cell(-128));
}
