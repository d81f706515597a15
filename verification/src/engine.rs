//! The rack address engine: maps a raw input string to a rack/cell
//! coordinate or a typed validation error, and owns the single highlighted
//! cell.
//!
//! The physical layout is fixed: 2 racks of 80 cells each, arranged as 5
//! columns of 16 cells. Within a rack, cell 1 sits at the bottom of the
//! rightmost column; numbers increase going up a column, then continue at
//! the bottom of the next column to the left.

use vstd::arithmetic::div_mod::lemma_fundamental_div_mod;
use vstd::prelude::*;
use vstd::string::StringSliceAdditionalSpecFns;

use crate::sequence::{decimal_value, is_decimal, parse_sequence, ParsedInput};

verus! {

/// Lowest sequence number that addresses a cell.
pub const MIN_SEQUENCE: usize = 1;

/// Highest sequence number that addresses a cell across both racks.
pub const MAX_SEQUENCE: usize = 160;

/// Number of addressable cells in one rack.
pub const RACK_CAPACITY: usize = 80;

/// Number of cells stacked in one column of a rack.
pub const COLUMN_HEIGHT: usize = 16;

/// Number of columns in one rack.
pub const RACK_COLUMNS: usize = 5;

/// A resolved cell address: the rack (1 or 2) and the 0-based position of
/// the cell within that rack's flattened 80-slot layout.
#[derive(Clone, Copy, Debug, PartialEq, Eq)]
pub struct Coordinate {
    pub rack: usize,
    pub index: usize,
}

/// What the engine concluded about one raw input string.
#[derive(Clone, Copy, Debug, PartialEq, Eq)]
pub enum Outcome {
    /// The input addressed a cell; the highlight moved there.
    Valid { coordinate: Coordinate },
    /// The input was a number outside `min..=max`.
    OutOfRange { min: usize, max: usize },
    /// The input was non-empty and did not read as a non-negative integer.
    Invalid,
    /// The input was empty: nothing highlighted and no error either.
    Empty,
}

/// The sequence value lies in the addressable range.
pub open spec fn in_range(v: nat) -> bool {
    MIN_SEQUENCE <= v <= MAX_SEQUENCE
}

/// Rack that holds sequence `v`.
pub open spec fn rack_of(v: nat) -> nat
    recommends
        in_range(v),
{
    if v <= RACK_CAPACITY {
        1
    } else {
        2
    }
}

/// 0-based position of sequence `v` within its rack.
pub open spec fn cell_index_of(v: nat) -> nat
    recommends
        in_range(v),
{
    (((v as int) - 1) % (RACK_CAPACITY as int)) as nat
}

/// The outcome the engine owes for an input with byte content `s`.
pub open spec fn outcome_for(s: Seq<u8>) -> Outcome {
    if s.len() == 0 {
        Outcome::Empty
    } else if !is_decimal(s) {
        Outcome::Invalid
    } else if !in_range(decimal_value(s)) {
        Outcome::OutOfRange { min: MIN_SEQUENCE, max: MAX_SEQUENCE }
    } else {
        Outcome::Valid {
            coordinate: Coordinate {
                rack: rack_of(decimal_value(s)) as usize,
                index: cell_index_of(decimal_value(s)) as usize,
            },
        }
    }
}

/// The highlight the engine owes after evaluating an input with byte
/// content `s`: the resolved cell on success, nothing otherwise.
pub open spec fn highlight_for(s: Seq<u8>) -> Option<usize> {
    match outcome_for(s) {
        Outcome::Valid { coordinate } => Some(coordinate.index),
        _ => None,
    }
}

/// Translates raw input strings to rack coordinates and owns the single
/// highlighted cell.
pub struct RackAddressEngine {
    /// 0-based index of the currently highlighted cell within its rack;
    /// `None` when nothing is highlighted. Holding at most one index makes
    /// a second simultaneous highlight impossible by construction.
    pub highlight: Option<usize>,
}

impl RackAddressEngine {
    /// The highlighted index, when present, addresses a real cell.
    pub open spec fn wf(self) -> bool {
        match self.highlight {
            Some(i) => i < RACK_CAPACITY,
            None => true,
        }
    }

    /// A fresh engine highlights nothing.
    pub fn new() -> (engine: Self)
        ensures
            engine.highlight.is_none(),
            engine.wf(),
    {
        RackAddressEngine { highlight: None }
    }

    /// Resolve one raw input. A valid sequence moves the highlight to the
    /// resolved cell, replacing any previous highlight; every other input
    /// clears the highlight and reports why in the outcome.
    pub fn evaluate(&mut self, raw: &str) -> (out: Outcome)
        ensures
            out == outcome_for(raw.spec_bytes()),
            final(self).highlight == highlight_for(raw.spec_bytes()),
            final(self).wf(),
    {
        match parse_sequence(raw, MAX_SEQUENCE) {
            ParsedInput::Empty => {
                self.highlight = None;
                Outcome::Empty
            },
            ParsedInput::NotDecimal => {
                self.highlight = None;
                Outcome::Invalid
            },
            ParsedInput::Number(v) => {
                if v < MIN_SEQUENCE || v > MAX_SEQUENCE {
                    self.highlight = None;
                    Outcome::OutOfRange { min: MIN_SEQUENCE, max: MAX_SEQUENCE }
                } else {
                    let rack: usize = if v <= RACK_CAPACITY {
                        1
                    } else {
                        2
                    };
                    let index: usize = if v <= RACK_CAPACITY {
                        v - 1
                    } else {
                        v - RACK_CAPACITY - 1
                    };
                    assert(index == cell_index_of(decimal_value(raw.spec_bytes())));
                    self.highlight = Some(index);
                    Outcome::Valid { coordinate: Coordinate { rack, index } }
                }
            },
        }
    }

    /// Blank the display without going through `evaluate`.
    pub fn clear(&mut self)
        ensures
            final(self).highlight.is_none(),
            final(self).wf(),
    {
        self.highlight = None;
    }
}

/// Column of the rack grid that holds cell `index`; column 0 is the
/// rightmost column, the one with the smallest sequence numbers.
pub open spec fn column_of(index: nat) -> nat {
    index / (COLUMN_HEIGHT as nat)
}

/// Vertical slot of cell `index` within its column; slot 0 is the bottom.
pub open spec fn slot_of(index: nat) -> nat {
    index % (COLUMN_HEIGHT as nat)
}

/// Rack-local sequence number of the cell at `column`, `slot`.
pub open spec fn sequence_at(column: nat, slot: nat) -> nat {
    (COLUMN_HEIGHT as nat) * column + slot + 1
}

/// Where cell `index` sits in the 5-column grid of one rack.
pub fn grid_position(index: usize) -> (position: (usize, usize))
    requires
        index < RACK_CAPACITY,
    ensures
        position.0 == column_of(index as nat),
        position.1 == slot_of(index as nat),
        position.0 < RACK_COLUMNS,
        position.1 < COLUMN_HEIGHT,
{
    (index / COLUMN_HEIGHT, index % COLUMN_HEIGHT)
}

/// Rack-local sequence number written on the cell at `column`, `slot`.
pub fn cell_sequence(column: usize, slot: usize) -> (s: usize)
    requires
        column < RACK_COLUMNS,
        slot < COLUMN_HEIGHT,
    ensures
        s == sequence_at(column as nat, slot as nat),
        MIN_SEQUENCE <= s <= RACK_CAPACITY,
{
    COLUMN_HEIGHT * column + slot + 1
}

/// Grid round trip: the cell at `index`'s grid position carries the
/// rack-local sequence `index + 1`, so each index names exactly one
/// physical cell and the grid labelling agrees with the flattened layout.
pub proof fn lemma_grid_round_trip(index: nat)
    requires
        index < RACK_CAPACITY,
    ensures
        sequence_at(column_of(index), slot_of(index)) == index + 1,
{
    lemma_fundamental_div_mod(index as int, COLUMN_HEIGHT as int);
}

} // verus!
