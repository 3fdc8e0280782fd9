//! Key events, the two halves of the keyboard and the column transform.

use vstd::prelude::*;

verus! {

/// A change of one switch on the matrix: `(row, column)` was pressed or
/// released. Mirrors `keyberon::layout::Event` as plain values.
#[derive(Debug, Clone, Copy, PartialEq, Eq, Structural)]
pub enum KeyEvent {
    Press(u8, u8),
    Release(u8, u8),
}

impl KeyEvent {
    pub open spec fn row(self) -> u8 {
        match self {
            KeyEvent::Press(i, _) => i,
            KeyEvent::Release(i, _) => i,
        }
    }

    pub open spec fn col(self) -> u8 {
        match self {
            KeyEvent::Press(_, j) => j,
            KeyEvent::Release(_, j) => j,
        }
    }

    pub open spec fn pressed(self) -> bool {
        self is Press
    }

    /// The `(row, column)` of the switch.
    pub fn coord(self) -> (r: (u8, u8))
        ensures
            r == (self.row(), self.col()),
    {
        match self {
            KeyEvent::Press(i, j) => (i, j),
            KeyEvent::Release(i, j) => (i, j),
        }
    }

    /// Whether the switch went down.
    pub fn is_press(self) -> (r: bool)
        ensures
            r == self.pressed(),
    {
        match self {
            KeyEvent::Press(_, _) => true,
            KeyEvent::Release(_, _) => false,
        }
    }
}

/// The same kind of event as `e`, at `(row, col)`.
pub open spec fn with_coord(e: KeyEvent, row: u8, col: u8) -> KeyEvent {
    match e {
        KeyEvent::Press(_, _) => KeyEvent::Press(row, col),
        KeyEvent::Release(_, _) => KeyEvent::Release(row, col),
    }
}

/// Layout column of physical column `j` on the right half: each group of
/// five switches fills columns 5..9 of one layout row of ten.
pub open spec fn right_column(j: int) -> int {
    (j / 5) * 10 + j % 5 + 5
}

/// Layout column of physical column `j` on the left half: each group of five
/// switches fills columns 4 down to 0 of one layout row of ten (the left
/// half is mirrored).
pub open spec fn left_column(j: int) -> int {
    (j / 5) * 10 + 4 - j % 5
}

pub open spec fn side_column(is_right: bool, j: int) -> int {
    if is_right { right_column(j) } else { left_column(j) }
}

/// The arithmetic of the transform stays within a `u8`.
pub open spec fn column_fits(is_right: bool, j: int) -> bool {
    if is_right { right_column(j) <= 255 } else { (j / 5) * 10 + 4 <= 255 }
}

/// Maps a physical column of one half onto the column of the shared layout.
pub fn side_column_exec(is_right: bool, j: u8) -> (x: u8)
    requires
        column_fits(is_right, j as int),
    ensures
        x as int == side_column(is_right, j as int),
{
    if is_right {
        // 0 -> 5,  5 -> 15, 10 -> 25
        ((j / 5) * 10) + (j % 5) + 5
    } else {
        ((j / 5) * 10) + 4 - (j % 5)
    }
}

/// `e` moved to the layout coordinates of the given half.
pub open spec fn transformed(is_right: bool, e: KeyEvent) -> KeyEvent {
    with_coord(e, e.row(), side_column(is_right, e.col() as int) as u8)
}

/// Calls `keyberon::layout::Event::transform`, which keeps the kind of the
/// event and replaces its coordinates with what the closure returns; the
/// closure is `side_column_exec`, so the row stays and the column is mapped.
#[verifier::external_body]
fn keyberon_transform(is_right: bool, e: KeyEvent) -> (r: KeyEvent)
    requires
        column_fits(is_right, e.col() as int),
    ensures
        r == with_coord(e, e.row(), side_column(is_right, e.col() as int) as u8),
{
    let ev = match e {
        KeyEvent::Press(i, j) => keyberon::layout::Event::Press(i, j),
        KeyEvent::Release(i, j) => keyberon::layout::Event::Release(i, j),
    };
    match ev.transform(|i: u8, j: u8| (i, side_column_exec(is_right, j))) {
        keyberon::layout::Event::Press(i, j) => KeyEvent::Press(i, j),
        keyberon::layout::Event::Release(i, j) => KeyEvent::Release(i, j),
    }
}

/// Moves an event of one half to the coordinates of the shared layout, as
/// the half that it came from sees it.
pub fn transform_event(is_right: bool, e: KeyEvent) -> (r: KeyEvent)
    requires
        column_fits(is_right, e.col() as int),
    ensures
        r == transformed(is_right, e),
        r.row() == e.row(),
        r.pressed() == e.pressed(),
        r.col() as int == side_column(is_right, e.col() as int),
{
    keyberon_transform(is_right, e)
}

/// Switches on one half, all in one matrix row.
pub const HALF_COLUMNS: u8 = 17;

/// Keys of the shared layout: four rows of ten.
pub const LAYOUT_KEYS: u8 = 40;

/// Whether layout column `x` belongs to the right half of its row.
pub open spec fn on_right_half(x: int) -> bool {
    x % 10 >= 5
}

/// The switch of the given half that lands on layout column `x`.
pub open spec fn switch_of(is_right: bool, x: int) -> int {
    if is_right {
        (x / 10) * 5 + x % 10 - 5
    } else {
        (x / 10) * 5 + 4 - x % 10
    }
}

/// Each half lands on its own side of the layout: the left half on columns
/// 0..4 of a row, the right half on columns 5..9, so no switch of one half
/// ever stands for a key of the other.
pub proof fn lemma_halves_disjoint(j: int, k: int)
    requires
        0 <= j,
        0 <= k,
    ensures
        !on_right_half(left_column(j)),
        on_right_half(right_column(k)),
        left_column(j) != right_column(k),
{
}

/// Two switches of one half never land on the same layout key.
pub proof fn lemma_side_injective(is_right: bool, j: int, k: int)
    requires
        0 <= j,
        0 <= k,
        side_column(is_right, j) == side_column(is_right, k),
    ensures
        j == k,
{
    assert(switch_of(is_right, side_column(is_right, j)) == j);
    assert(switch_of(is_right, side_column(is_right, k)) == k);
}

/// The transform is undone by `switch_of`: the layout column tells which
/// switch of the half was hit.
pub proof fn lemma_switch_of_side(is_right: bool, j: int)
    requires
        0 <= j,
    ensures
        switch_of(is_right, side_column(is_right, j)) == j,
        side_column(is_right, j) >= 0,
{
}

/// Every key on a half's side of the four layout rows is reached by one of
/// the first twenty switches of that half, the one that `switch_of` names.
pub proof fn lemma_side_onto(is_right: bool, x: int)
    requires
        0 <= x < LAYOUT_KEYS,
        on_right_half(x) == is_right,
    ensures
        0 <= switch_of(is_right, x) < 20,
        side_column(is_right, switch_of(is_right, x)) == x,
{
}

/// No switch of either half lands on layout columns 37..39, the keys that
/// only chords reach.
pub proof fn lemma_no_switch_on_chord_keys(is_right: bool, j: int)
    requires
        0 <= j < HALF_COLUMNS,
    ensures
        side_column(is_right, j) < 37,
{
}

/// The switches of one half land within the four rows of the layout.
pub proof fn lemma_side_in_layout(is_right: bool, j: int)
    requires
        0 <= j < HALF_COLUMNS,
    ensures
        0 <= side_column(is_right, j) < LAYOUT_KEYS,
        column_fits(is_right, j),
{
}

} // verus!
