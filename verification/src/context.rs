//! The execution engine: a tape of cells under a cursor, and the walk of a
//! program tree over it.
//!
//! The engine does no input and no output. It runs a program step by step,
//! and each step says what its host has to do before the next one.

use crate::ast::{Block, Node};
use crate::error::{unexpected_eof, Error};
use crate::tape::{byte_of, cell_of, padded, Tape};
use crate::walk::{cursor_fits, lemma_step_nested, nested, place_in_block, step, Level};
use vstd::prelude::*;

verus! {

/// What the engine asks of its host after a step.
#[derive(Debug, Clone, Copy, PartialEq, Eq)]
pub enum Action {
    /// Nothing: go on with the next step.
    Next,
    /// Nothing: the cell is not zero, and the body of the loop runs next.
    Enter,
    /// Write this byte to the output stream, then go on.
    Output(u8),
    /// Read one byte from the input stream, hand what came to
    /// [`Context::input`], then go on.
    Input,
    /// Nothing is left to run.
    Halt,
}

/// The tape and the cursor: all that a running program can change.
#[derive(Debug, PartialEq)]
pub struct Context {
    lbuf: Vec<i8>,
    rbuf: Vec<i8>,
    index: i64,
}

impl View for Context {
    type V = Tape;

    closed spec fn view(&self) -> Tape {
        Tape { left: self.lbuf@, right: self.rbuf@, cursor: self.index as int }
    }
}

impl Context {
    /// A fresh tape: the origin cell alone, holding zero, under the cursor.
    pub fn new() -> (ctx: Context)
        ensures
            ctx@ == (Tape { left: Seq::empty(), right: seq![0i8], cursor: 0 }),
            ctx@.covered(),
    {
        let mut rbuf: Vec<i8> = Vec::new();
        rbuf.push(0);
        Context { lbuf: Vec::new(), rbuf, index: 0 }
    }

    /// The tape with these cells and this cursor, as they are given.
    pub fn new_with_data(lbuf: Vec<i8>, rbuf: Vec<i8>, index: i64) -> (ctx: Context)
        ensures
            ctx@ == (Tape { left: lbuf@, right: rbuf@, cursor: index as int }),
    {
        Context { lbuf, rbuf, index }
    }

    /// Where the cursor stands.
    pub fn index(&self) -> (index: i64)
        ensures
            index == self@.cursor,
    {
        self.index
    }

    /// The cell under the cursor, if it exists.
    pub fn get(&self) -> (cell: Option<&i8>)
        ensures
            self@.covered() ==> cell == Some(&self@.current()),
            !self@.covered() ==> cell.is_none(),
    {
        if self.index < 0 {
            let at: u64 = (-(self.index + 1)) as u64;
            if at < self.lbuf.len() as u64 {
                Some(&self.lbuf[at as usize])
            } else {
                None
            }
        } else {
            let at: u64 = self.index as u64;
            if at < self.rbuf.len() as u64 {
                Some(&self.rbuf[at as usize])
            } else {
                None
            }
        }
    }

    /// The cell under the cursor, to be written, if it exists.
    pub fn get_mut(&mut self) -> (cell: Option<&mut i8>)
        ensures
            old(self)@.covered() ==> cell.is_some() && *cell.unwrap() == old(self)@.current()
                && final(self)@ == old(self)@.with_current(*final(cell.unwrap())),
            !old(self)@.covered() ==> cell.is_none() && final(self)@ == old(self)@,
    {
        if self.index < 0 {
            let at: u64 = (-(self.index + 1)) as u64;
            if at < self.lbuf.len() as u64 {
                Some(&mut self.lbuf[at as usize])
            } else {
                None
            }
        } else {
            let at: u64 = self.index as u64;
            if at < self.rbuf.len() as u64 {
                Some(&mut self.rbuf[at as usize])
            } else {
                None
            }
        }
    }

    /// Runs `node` for one step and says what it asks of the host.
    ///
    /// A move shifts the cursor by one cell and makes the cell it reaches
    /// exist, holding zero. An increment or decrement changes the cell under
    /// the cursor, wrapping at 8 bits. Output asks for the cell to be written
    /// as an unsigned byte, input for a byte to be read; neither changes the
    /// tape. A loop changes nothing either: it asks to enter its body when
    /// the cell is not zero, and to go on when it is.
    pub fn run_node(&mut self, node: &Node) -> (action: Action)
        requires
            node@ is LShift ==> old(self)@.cursor > i64::MIN,
            node@ is RShift ==> old(self)@.cursor < i64::MAX,
        ensures
            final(self)@ == old(self)@.after(node@),
            action == old(self)@.asks(node@),
            old(self)@.covered() ==> final(self)@.covered(),
    {
        match node {
            Node::LShift => {
                self.index -= 1;
                if self.index < 0 {
                    let last: u64 = (-(self.index + 1)) as u64;
                    while self.lbuf.len() as u64 <= last
                        invariant
                            self.index == old(self).index - 1,
                            self.index < 0,
                            last == -self.index - 1,
                            self.rbuf@ == old(self).rbuf@,
                            self.lbuf@.len() >= old(self).lbuf@.len(),
                            self.lbuf@.len() > old(self).lbuf@.len() ==> self.lbuf@.len() <= last + 1,
                            self.lbuf@ == padded(old(self).lbuf@, self.lbuf@.len() as int),
                        decreases last + 1 - self.lbuf@.len(),
                    {
                        self.lbuf.push(0);
                    }
                }
                Action::Next
            },
            Node::RShift => {
                self.index += 1;
                if self.index >= 0 {
                    let last: u64 = self.index as u64;
                    while self.rbuf.len() as u64 <= last
                        invariant
                            self.index == old(self).index + 1,
                            self.index >= 0,
                            last == self.index,
                            self.lbuf@ == old(self).lbuf@,
                            self.rbuf@.len() >= old(self).rbuf@.len(),
                            self.rbuf@.len() > old(self).rbuf@.len() ==> self.rbuf@.len() <= last + 1,
                            self.rbuf@ == padded(old(self).rbuf@, self.rbuf@.len() as int),
                        decreases last + 1 - self.rbuf@.len(),
                    {
                        self.rbuf.push(0);
                    }
                }
                Action::Next
            },
            Node::Inc => {
                if let Some(elem) = self.get_mut() {
                    *elem = elem.wrapping_add(1);
                }
                Action::Next
            },
            Node::Dec => {
                if let Some(elem) = self.get_mut() {
                    *elem = elem.wrapping_sub(1);
                }
                Action::Next
            },
            Node::PutCh => {
                let cell: i8 = match self.get() {
                    Some(elem) => *elem,
                    None => 0,
                };
                assert(cell as u8 == byte_of(cell)) by (bit_vector);
                Action::Output(#[verifier::truncate] (cell as u8))
            },
            Node::GetCh => Action::Input,
            Node::Loop(_) => {
                if self.loop_cond() {
                    Action::Enter
                } else {
                    Action::Next
                }
            },
        }
    }

    /// Takes what the host read for an input instruction.
    ///
    /// A byte goes into the cell under the cursor. The end of the stream is a
    /// failure like any other: the run ends with it, and the tape stays as it
    /// was.
    pub fn input(&mut self, read: Result<Option<u8>, std::io::Error>) -> (done: Result<(), Error>)
        ensures
            match read {
                Ok(Some(byte)) => done is Ok && final(self)@ == old(self)@.with_current(
                    cell_of(byte),
                ),
                Ok(None) => done is Err && done->Err_0 is IOError && final(self)@ == old(self)@,
                Err(err) => done == Err::<(), Error>(Error::IOError(err)) && final(self)@ == old(
                    self,
                )@,
            },
            old(self)@.covered() ==> final(self)@.covered(),
    {
        match read {
            Ok(Some(byte)) => {
                assert(byte as i8 == cell_of(byte)) by (bit_vector);
                if let Some(elem) = self.get_mut() {
                    *elem = #[verifier::truncate] (byte as i8);
                }
                Ok(())
            },
            Ok(None) => Err(Error::IOError(unexpected_eof())),
            Err(err) => Err(Error::IOError(err)),
        }
    }

    /// Whether a loop at the cursor runs its body: the cell is not zero.
    pub fn loop_cond(&self) -> (enter: bool)
        ensures
            enter == (self@.current() != 0),
    {
        match self.get() {
            Some(cell) => *cell != 0,
            None => false,
        }
    }
}

/// One level of a walk: a block, and the place of its node that runs next.
#[derive(Debug, Clone, Copy)]
struct Frame<'p> {
    block: &'p Block,
    next: usize,
}

impl<'p> View for Frame<'p> {
    type V = Level;

    closed spec fn view(&self) -> Level {
        Level { nodes: self.block@, next: self.next as int }
    }
}

/// Where the walk of a program stands: the levels from the program itself
/// down to the innermost loop body that is running.
#[derive(Debug)]
pub struct Execution<'p> {
    frames: Vec<Frame<'p>>,
}

impl<'p> View for Execution<'p> {
    type V = Seq<Level>;

    closed spec fn view(&self) -> Seq<Level> {
        Seq::new(self.frames@.len(), |i: int| self.frames@[i]@)
    }
}

impl<'p> Execution<'p> {
    /// The walk of `block` before its first step.
    pub fn new(block: &'p Block) -> (exec: Execution<'p>)
        ensures
            exec@ == seq![Level { nodes: block@, next: 0 }],
            nested(exec@),
    {
        let mut frames: Vec<Frame<'p>> = Vec::new();
        frames.push(Frame { block, next: 0 });
        let exec = Execution { frames };
        assert(exec@ =~= seq![Level { nodes: block@, next: 0 }]);
        assert(place_in_block(exec@, 0));
        exec
    }

    /// Whether the walk has ended.
    pub fn is_done(&self) -> (done: bool)
        ensures
            done == (self@.len() == 0),
    {
        self.frames.len() == 0
    }

    /// The innermost level, if the walk has not ended.
    fn top(&self) -> (frame: Option<Frame<'p>>)
        ensures
            self@.len() == 0 ==> frame.is_none(),
            self@.len() > 0 ==> frame.is_some() && frame.unwrap()@ == self@.last(),
    {
        let depth = self.frames.len();
        if depth == 0 {
            None
        } else {
            Some(self.frames[depth - 1])
        }
    }

    /// Leaves the innermost level.
    fn leave(&mut self)
        requires
            old(self)@.len() > 0,
        ensures
            final(self)@ == old(self)@.drop_last(),
    {
        self.frames.pop();
        assert(self@ =~= old(self)@.drop_last());
    }

    /// Opens a level for `body`, at its first node.
    fn enter(&mut self, body: &'p Block)
        ensures
            final(self)@ == old(self)@.push(Level { nodes: body@, next: 0 }),
    {
        self.frames.push(Frame { block: body, next: 0 });
        assert(self@ =~= old(self)@.push(Level { nodes: body@, next: 0 }));
    }

    /// Moves the place of the innermost level on by one node.
    fn advance(&mut self)
        requires
            old(self)@.len() > 0,
            old(self)@.last().next < usize::MAX,
        ensures
            final(self)@ == old(self)@.drop_last().push(
                Level { nodes: old(self)@.last().nodes, next: old(self)@.last().next + 1 },
            ),
    {
        let depth = self.frames.len();
        let frame = self.frames[depth - 1];
        self.frames.pop();
        self.frames.push(Frame { block: frame.block, next: frame.next + 1 });
        assert(self@ =~= old(self)@.drop_last().push(
            Level { nodes: old(self)@.last().nodes, next: old(self)@.last().next + 1 },
        ));
    }
}

impl Context {
    /// Runs the next step of the walk `exec` on this tape, and says what the
    /// host has to do before the step after it.
    ///
    /// Called until it says [`Action::Halt`], it runs the program of `exec`
    /// from its first node to its last, loops as often as their cells ask
    /// for; a program that does not end is never done. The cursor must be able
    /// to make the move that the step asks for.
    pub fn run<'p>(&mut self, exec: &mut Execution<'p>) -> (action: Action)
        requires
            cursor_fits(old(self)@, old(exec)@),
        ensures
            (final(self)@, final(exec)@, action) == step(old(self)@, old(exec)@),
            nested(old(exec)@) ==> nested(final(exec)@),
            old(self)@.covered() ==> final(self)@.covered(),
    {
        proof {
            if nested(exec@) {
                lemma_step_nested(self@, exec@);
            }
        }
        let frame = match exec.top() {
            None => {
                return Action::Halt;
            },
            Some(frame) => frame,
        };
        let node: &'p Node = match frame.block.get(frame.next) {
            None => {
                let outermost = exec.frames.len() == 1;
                exec.leave();
                return if outermost {
                    Action::Halt
                } else {
                    Action::Next
                };
            },
            Some(node) => node,
        };
        proof {
            frame.block.lemma_len_fits();
        }
        let action = self.run_node(node);
        match node {
            Node::Loop(body) if matches!(action, Action::Enter) => {
                exec.enter(body);
            },
            _ => {
                exec.advance();
            },
        }
        action
    }
}

} // verus!
