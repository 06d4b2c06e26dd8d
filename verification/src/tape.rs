//! The tape as the contracts see it: cells of 8 bits on both sides of an
//! origin, a cursor, and what each instruction does to them.

use crate::ast::Instr;
use crate::context::Action;
use vstd::prelude::*;

verus! {

/// The cell after one increment: 8 bits, wrapping.
pub open spec fn increment(cell: i8) -> i8 {
    if cell == i8::MAX {
        i8::MIN
    } else {
        (cell + 1) as i8
    }
}

/// The cell after one decrement: 8 bits, wrapping.
pub open spec fn decrement(cell: i8) -> i8 {
    if cell == i8::MIN {
        i8::MAX
    } else {
        (cell - 1) as i8
    }
}

/// The cell read as an unsigned byte, as it goes to the output stream.
pub open spec fn byte_of(cell: i8) -> u8 {
    if cell < 0 {
        (cell + 256) as u8
    } else {
        cell as u8
    }
}

/// The cell that holds an unsigned byte, as it comes from the input stream.
pub open spec fn cell_of(byte: u8) -> i8 {
    if byte > i8::MAX {
        (byte - 256) as i8
    } else {
        byte as i8
    }
}

/// `buf`, with zeros after it where it is shorter than `len`.
pub open spec fn padded(buf: Seq<i8>, len: int) -> Seq<i8> {
    if buf.len() >= len {
        buf
    } else {
        buf + Seq::new((len - buf.len()) as nat, |i: int| 0i8)
    }
}

/// The mathematical model of a [`Context`]: the cells that exist so far on
/// both sides of the origin, and the cursor.
///
/// Cell `i >= 0` is `right[i]`, cell `i < 0` is `left[-i - 1]`; a cell beyond
/// either buffer holds zero.
#[verifier::ext_equal]
pub struct Tape {
    pub left: Seq<i8>,
    pub right: Seq<i8>,
    pub cursor: int,
}

impl Tape {
    /// Whether the cell under the cursor exists in its buffer.
    pub open spec fn covered(self) -> bool {
        if self.cursor < 0 {
            -self.cursor <= self.left.len()
        } else {
            self.cursor < self.right.len()
        }
    }

    /// What cell `at` holds.
    pub open spec fn cell(self, at: int) -> i8 {
        if at < 0 {
            if -at <= self.left.len() {
                self.left[-at - 1]
            } else {
                0
            }
        } else {
            if at < self.right.len() {
                self.right[at]
            } else {
                0
            }
        }
    }

    /// What the cell under the cursor holds.
    pub open spec fn current(self) -> i8 {
        self.cell(self.cursor)
    }

    /// The tape with `value` in the cell under the cursor, where that cell
    /// exists; the same tape where it does not.
    pub open spec fn with_current(self, value: i8) -> Tape {
        if !self.covered() {
            self
        } else if self.cursor < 0 {
            Tape { left: self.left.update(-self.cursor - 1, value), ..self }
        } else {
            Tape { right: self.right.update(self.cursor, value), ..self }
        }
    }

    /// The tape with the cursor one cell to the left, and that cell made to
    /// exist.
    pub open spec fn moved_left(self) -> Tape {
        Tape {
            left: if self.cursor - 1 < 0 {
                padded(self.left, 1 - self.cursor)
            } else {
                self.left
            },
            right: self.right,
            cursor: self.cursor - 1,
        }
    }

    /// The tape with the cursor one cell to the right, and that cell made to
    /// exist.
    pub open spec fn moved_right(self) -> Tape {
        Tape {
            left: self.left,
            right: if self.cursor + 1 >= 0 {
                padded(self.right, self.cursor + 2)
            } else {
                self.right
            },
            cursor: self.cursor + 1,
        }
    }

    /// The tape after `node` has run for one step: the cursor moved or the
    /// cell changed. Input, output and loops leave the tape as it is.
    pub open spec fn after(self, node: Instr) -> Tape {
        match node {
            Instr::LShift => self.moved_left(),
            Instr::RShift => self.moved_right(),
            Instr::Inc => self.with_current(increment(self.current())),
            Instr::Dec => self.with_current(decrement(self.current())),
            Instr::PutCh => self,
            Instr::GetCh => self,
            Instr::Loop(_) => self,
        }
    }

    /// What `node` asks of the host when it runs on this tape.
    pub open spec fn asks(self, node: Instr) -> Action {
        match node {
            Instr::PutCh => Action::Output(byte_of(self.current())),
            Instr::GetCh => Action::Input,
            Instr::Loop(_) => if self.current() != 0 {
                Action::Enter
            } else {
                Action::Next
            },
            _ => Action::Next,
        }
    }
}

/// `cell` after `count` increments.
pub open spec fn incremented(cell: i8, count: nat) -> i8
    decreases count,
{
    if count == 0 {
        cell
    } else {
        increment(incremented(cell, (count - 1) as nat))
    }
}

/// `tape` after `node` has run `count` times.
pub open spec fn repeated(tape: Tape, node: Instr, count: nat) -> Tape
    decreases count,
{
    if count == 0 {
        tape
    } else {
        repeated(tape, node, (count - 1) as nat).after(node)
    }
}

/// An increment and a decrement undo each other, in either order, on every
/// cell: so a cell that holds zero holds zero again after the two.
pub proof fn lemma_increment_decrement(cell: i8)
    ensures
        decrement(increment(cell)) == cell,
        increment(decrement(cell)) == cell,
        decrement(increment(0)) == 0,
{
}

/// In unsigned bytes an increment adds one modulo 256, and a decrement takes
/// one away modulo 256.
pub proof fn lemma_unsigned_wrapping(cell: i8)
    ensures
        byte_of(increment(cell)) == (byte_of(cell) + 1) % 256,
        byte_of(decrement(cell)) == (byte_of(cell) + 255) % 256,
        cell_of(byte_of(cell)) == cell,
{
}

/// In unsigned bytes `count` increments add `count` modulo 256.
pub proof fn lemma_incremented(cell: i8, count: nat)
    ensures
        byte_of(incremented(cell, count)) == (byte_of(cell) + count) % 256,
    decreases count,
{
    if count > 0 {
        lemma_incremented(cell, (count - 1) as nat);
        lemma_unsigned_wrapping(incremented(cell, (count - 1) as nat));
    }
}

/// The wraparound law: 256 increments in a row bring every cell back to what
/// it held.
pub proof fn lemma_increments_wrap_around(cell: i8)
    ensures
        incremented(cell, 256) == cell,
{
    lemma_incremented(cell, 256);
    lemma_unsigned_wrapping(cell);
    lemma_unsigned_wrapping(incremented(cell, 256));
}

/// On a tape, an increment followed by a decrement changes nothing, and
/// neither do 256 increments in a row.
pub proof fn lemma_tape_wrap_around(tape: Tape)
    ensures
        tape.after(Instr::Inc).after(Instr::Dec) == tape,
        repeated(tape, Instr::Inc, 256) == tape,
{
    lemma_increment_decrement(tape.current());
    assert(tape.after(Instr::Inc).after(Instr::Dec) =~= tape);
    lemma_repeated_increment(tape, 256);
    lemma_increments_wrap_around(tape.current());
    assert(tape.with_current(tape.current()) =~= tape);
}

/// `count` increments of a tape are `count` increments of the cell under its
/// cursor.
pub proof fn lemma_repeated_increment(tape: Tape, count: nat)
    ensures
        repeated(tape, Instr::Inc, count) == tape.with_current(
            incremented(tape.current(), count),
        ),
    decreases count,
{
    if count == 0 {
        assert(tape.with_current(tape.current()) =~= tape);
    } else {
        lemma_repeated_increment(tape, (count - 1) as nat);
        let before = tape.with_current(incremented(tape.current(), (count - 1) as nat));
        assert(before.after(Instr::Inc) =~= tape.with_current(
            incremented(tape.current(), count),
        ));
    }
}

/// The two buffers stand for one tape without end, of which the cell under the
/// cursor exists: a move changes no cell, whatever it makes exist, and puts
/// the cursor on a cell that exists; a write to the cell under the cursor
/// changes that cell and no other.
pub proof fn lemma_tape_cells(tape: Tape, value: i8, at: int)
    ensures
        tape.moved_left().cell(at) == tape.cell(at),
        tape.moved_right().cell(at) == tape.cell(at),
        tape.moved_left().cursor == tape.cursor - 1,
        tape.moved_right().cursor == tape.cursor + 1,
        tape.covered() ==> tape.moved_left().covered(),
        tape.covered() ==> tape.moved_right().covered(),
        tape.covered() ==> tape.with_current(value).cell(at) == if at == tape.cursor {
            value
        } else {
            tape.cell(at)
        },
        tape.covered() ==> tape.with_current(value).covered(),
{
}

} // verus!
