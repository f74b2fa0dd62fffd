//! Numbers and positions as text, for messages.

use crate::parser::Position;
use vstd::prelude::*;
use vstd::string::StringExecFns;

verus! {

/// One decimal digit as text.
pub open spec fn digit_text(digit: nat) -> Seq<char> {
    if digit == 0 {
        "0"@
    } else if digit == 1 {
        "1"@
    } else if digit == 2 {
        "2"@
    } else if digit == 3 {
        "3"@
    } else if digit == 4 {
        "4"@
    } else if digit == 5 {
        "5"@
    } else if digit == 6 {
        "6"@
    } else if digit == 7 {
        "7"@
    } else if digit == 8 {
        "8"@
    } else {
        "9"@
    }
}

/// A natural number in decimal, without leading zeros.
pub open spec fn decimal_text(number: nat) -> Seq<char>
    decreases number,
{
    if number < 10 {
        digit_text(number)
    } else {
        decimal_text(number / 10) + digit_text(number % 10)
    }
}

/// A position as text: `(3)` for a single index, `(3,7)` for a range.
pub open spec fn position_text(position: Position) -> Seq<char> {
    if position.start == position.end {
        "("@ + decimal_text(position.start as nat) + ")"@
    } else {
        "("@ + decimal_text(position.start as nat) + ","@ + decimal_text(position.end as nat)
            + ")"@
    }
}

/// Positions as text, with a comma and a space between any two.
pub open spec fn positions_text(positions: Seq<Position>) -> Seq<char>
    decreases positions.len(),
{
    if positions.len() == 0 {
        Seq::empty()
    } else if positions.len() == 1 {
        position_text(positions[0])
    } else {
        positions_text(positions.drop_last()) + ", "@ + position_text(positions.last())
    }
}

fn digit(value: usize) -> (text: &'static str)
    requires
        value < 10,
    ensures
        text@ == digit_text(value as nat),
{
    match value {
        0 => "0",
        1 => "1",
        2 => "2",
        3 => "3",
        4 => "4",
        5 => "5",
        6 => "6",
        7 => "7",
        8 => "8",
        _ => "9",
    }
}

/// A number in decimal.
pub fn decimal(number: usize) -> (text: String)
    ensures
        text@ == decimal_text(number as nat),
    decreases number,
{
    if number < 10 {
        digit(number).to_owned()
    } else {
        let mut text = decimal(number / 10);
        text.append(digit(number % 10));
        text
    }
}

/// A position as text.
pub fn position(place: &Position) -> (text: String)
    ensures
        text@ == position_text(*place),
{
    let mut text = "(".to_owned();
    text.append(decimal(place.start).as_str());
    if place.start != place.end {
        text.append(",");
        text.append(decimal(place.end).as_str());
    }
    text.append(")");
    text
}

/// Positions as text, with a comma and a space between any two.
pub fn positions(places: &Vec<Position>) -> (text: String)
    ensures
        text@ == positions_text(places@),
{
    let mut text = String::new();
    let mut i: usize = 0;
    proof {
        assert(places@.take(0) =~= Seq::<Position>::empty());
    }
    while i < places.len()
        invariant
            i <= places.len(),
            text@ == positions_text(places@.take(i as int)),
        decreases places.len() - i,
    {
        proof {
            assert(places@.take(i + 1).drop_last() =~= places@.take(i as int));
            assert(places@.take(i + 1).last() == places[i as int]);
            if i == 0 {
                assert(places@.take(1)[0] == places[0]);
                assert(Seq::<char>::empty() + position_text(places[0]) =~= position_text(
                    places[0],
                ));
            }
        }
        if i > 0 {
            text.append(", ");
        }
        text.append(position(&places[i]).as_str());
        i += 1;
    }
    proof {
        assert(places@.take(i as int) =~= places@);
    }
    text
}

} // verus!
