//! The memory of a running program: a fixed number of byte cells and a
//! cursor that selects one of them.
//!
//! Cell arithmetic wraps around modulo 256. The cursor never leaves the
//! tape: a move past either end is refused and leaves the tape as it was.

use vstd::prelude::*;

verus! {

/// The number of cells on a tape.
pub const TAPE_LEN: usize = 30000;

/// The value of a cell after adding one to it, wrapping from 255 to 0.
pub open spec fn incremented(value: u8) -> u8 {
    if value == 255 {
        0
    } else {
        (value + 1) as u8
    }
}

/// The value of a cell after subtracting one from it, wrapping from 0 to
/// 255.
pub open spec fn decremented(value: u8) -> u8 {
    if value == 0 {
        255
    } else {
        (value - 1) as u8
    }
}

/// What a tape holds: the cells in order and the position of the cursor.
pub struct TapeView {
    pub cells: Seq<u8>,
    pub cursor: int,
}

impl TapeView {
    /// A tape has `TAPE_LEN` cells and its cursor selects one of them.
    pub open spec fn valid(self) -> bool {
        &&& self.cells.len() == TAPE_LEN
        &&& 0 <= self.cursor < TAPE_LEN
    }

    /// The tape a run starts with: every cell zero, the cursor on the first
    /// cell.
    pub open spec fn blank() -> TapeView {
        TapeView { cells: Seq::new(TAPE_LEN as nat, |i: int| 0u8), cursor: 0 }
    }

    /// The cell under the cursor.
    pub open spec fn current(self) -> u8 {
        self.cells[self.cursor]
    }

    /// The same tape with `value` in the cell under the cursor.
    pub open spec fn store(self, value: u8) -> TapeView {
        TapeView { cells: self.cells.update(self.cursor, value), ..self }
    }
}

/// A tape of `TAPE_LEN` byte cells with a cursor.
pub struct Tape {
    cells: [u8; TAPE_LEN],
    cursor: usize,
}

impl View for Tape {
    type V = TapeView;

    closed spec fn view(&self) -> TapeView {
        TapeView { cells: self.cells@, cursor: self.cursor as int }
    }
}

impl Tape {
    /// The cursor is on the tape.
    pub open spec fn wf(&self) -> bool {
        self@.valid()
    }

    /// A blank tape.
    pub fn new() -> (tape: Tape)
        ensures
            tape.wf(),
            tape@ == TapeView::blank(),
    {
        let tape = Tape { cells: [0u8; TAPE_LEN], cursor: 0 };
        assert(tape@.cells =~= TapeView::blank().cells);
        tape
    }

    /// The position of the cursor.
    pub fn cursor(&self) -> (cursor: usize)
        requires
            self.wf(),
        ensures
            cursor == self@.cursor,
            cursor < TAPE_LEN,
    {
        self.cursor
    }

    /// The cell under the cursor.
    pub fn get(&self) -> (value: u8)
        requires
            self.wf(),
        ensures
            value == self@.current(),
    {
        self.cells[self.cursor]
    }

    /// The cell at `index`, or `None` if the tape has no such cell.
    pub fn cell(&self, index: usize) -> (value: Option<u8>)
        ensures
            index < TAPE_LEN ==> value == Some(self@.cells[index as int]),
            index >= TAPE_LEN ==> value.is_none(),
    {
        if index < TAPE_LEN {
            Some(self.cells[index])
        } else {
            None
        }
    }

    /// Puts `value` into the cell under the cursor.
    pub fn set(&mut self, value: u8)
        requires
            old(self).wf(),
        ensures
            final(self).wf(),
            final(self)@ == old(self)@.store(value),
    {
        self.cells[self.cursor] = value;
    }

    /// Adds one to the cell under the cursor; 255 becomes 0.
    pub fn increment(&mut self)
        requires
            old(self).wf(),
        ensures
            final(self).wf(),
            final(self)@ == old(self)@.store(incremented(old(self)@.current())),
    {
        let value = self.cells[self.cursor];
        self.cells[self.cursor] = value.wrapping_add(1);
    }

    /// Subtracts one from the cell under the cursor; 0 becomes 255.
    pub fn decrement(&mut self)
        requires
            old(self).wf(),
        ensures
            final(self).wf(),
            final(self)@ == old(self)@.store(decremented(old(self)@.current())),
    {
        let value = self.cells[self.cursor];
        self.cells[self.cursor] = value.wrapping_sub(1);
    }

    /// Moves the cursor one cell to the right. At the last cell the move is
    /// refused: the result is `false` and the tape is unchanged.
    pub fn move_right(&mut self) -> (moved: bool)
        requires
            old(self).wf(),
        ensures
            final(self).wf(),
            moved == (old(self)@.cursor + 1 < TAPE_LEN),
            moved ==> final(self)@ == (TapeView { cursor: old(self)@.cursor + 1, ..old(self)@ }),
            !moved ==> final(self)@ == old(self)@,
    {
        if self.cursor + 1 < TAPE_LEN {
            self.cursor = self.cursor + 1;
            true
        } else {
            false
        }
    }

    /// Moves the cursor one cell to the left. At the first cell the move is
    /// refused: the result is `false` and the tape is unchanged.
    pub fn move_left(&mut self) -> (moved: bool)
        requires
            old(self).wf(),
        ensures
            final(self).wf(),
            moved == (old(self)@.cursor > 0),
            moved ==> final(self)@ == (TapeView { cursor: old(self)@.cursor - 1, ..old(self)@ }),
            !moved ==> final(self)@ == old(self)@,
    {
        if self.cursor > 0 {
            self.cursor = self.cursor - 1;
            true
        } else {
            false
        }
    }
}

} // verus!
