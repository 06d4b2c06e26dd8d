//! What a program does, read off its tree, and that a walk of the tree does
//! the same.
//!
//! The engine runs a program step by step and leaves input and output to its
//! host. Here the program's meaning is given in one piece, on a tape with an
//! input stream and an output stream; a host that feeds the steps from the one
//! stream and collects what they ask to write in the other arrives at it.

use crate::ast::Instr;
use crate::context::Action;
use crate::tape::{byte_of, cell_of, Tape};
use crate::walk::{step, Level};
use vstd::prelude::*;

verus! {

/// All that a program can see and change: the tape, the bytes of the input
/// stream that are not read yet, and the bytes written to the output stream
/// so far.
#[verifier::ext_equal]
pub struct World {
    pub tape: Tape,
    pub input: Seq<u8>,
    pub output: Seq<u8>,
}

/// How a program, or a part of one, ended.
#[verifier::ext_equal]
pub enum Outcome {
    /// It ran to its end, and left this.
    Done(World),
    /// An input instruction found the input stream at its end; this is what
    /// was left at that moment.
    Failed(World),
    /// It did not end within the passes it was given.
    Unfinished,
}

/// What running `node` does to `world`.
///
/// A loop runs its body while the cell under the cursor is not zero, in whole
/// passes, and tests the cell before each pass. `passes` bounds the passes
/// that any one loop may make, and the depth of loops within loops: what does
/// not end in that bound is `Unfinished`.
pub open spec fn node_outcome(node: Instr, world: World, passes: nat) -> Outcome
    decreases passes, node, 0nat,
{
    match node {
        Instr::PutCh => Outcome::Done(
            World { output: world.output.push(byte_of(world.tape.current())), ..world },
        ),
        Instr::GetCh => if world.input.len() == 0 {
            Outcome::Failed(world)
        } else {
            Outcome::Done(
                World {
                    tape: world.tape.with_current(cell_of(world.input[0])),
                    input: world.input.skip(1),
                    output: world.output,
                },
            )
        },
        Instr::Loop(body) => if world.tape.current() == 0 {
            Outcome::Done(world)
        } else if passes == 0 {
            Outcome::Unfinished
        } else {
            match block_outcome(body, 0, world, (passes - 1) as nat) {
                Outcome::Done(after) => node_outcome(node, after, (passes - 1) as nat),
                Outcome::Failed(after) => Outcome::Failed(after),
                Outcome::Unfinished => Outcome::Unfinished,
            }
        },
        _ => Outcome::Done(World { tape: world.tape.after(node), ..world }),
    }
}

/// What running the nodes of `nodes` from place `from` on does to `world`:
/// each node in its turn, on what the node before it left.
pub open spec fn block_outcome(nodes: Seq<Instr>, from: int, world: World, passes: nat) -> Outcome
    decreases passes, nodes, nodes.len() - from,
{
    if from < 0 || from >= nodes.len() {
        Outcome::Done(world)
    } else {
        match node_outcome(nodes[from], world, passes) {
            Outcome::Done(after) => block_outcome(nodes, from + 1, after, passes),
            Outcome::Failed(after) => Outcome::Failed(after),
            Outcome::Unfinished => Outcome::Unfinished,
        }
    }
}

/// What a program does to `world`.
pub open spec fn program_outcome(program: Seq<Instr>, world: World, passes: nat) -> Outcome {
    block_outcome(program, 0, world, passes)
}

/// Where a walk stands for its host.
pub enum Status {
    /// The walk goes on.
    Running,
    /// The walk has ended.
    Halted,
    /// The walk asked for input, and the input stream was at its end.
    Failed,
}

/// One step of a walk together with what its host does for it: a byte that
/// the step asks to write goes to the output stream, and a byte that it asks
/// to read comes from the input stream and goes into the cell under the
/// cursor.
pub open spec fn hosted_step(world: World, levels: Seq<Level>) -> (World, Seq<Level>, Status) {
    let (tape, levels, action) = step(world.tape, levels);
    match action {
        Action::Halt => (world, levels, Status::Halted),
        Action::Output(byte) => (
            World { tape, input: world.input, output: world.output.push(byte) },
            levels,
            Status::Running,
        ),
        Action::Input => if world.input.len() == 0 {
            (world, levels, Status::Failed)
        } else {
            (
                World {
                    tape: tape.with_current(cell_of(world.input[0])),
                    input: world.input.skip(1),
                    output: world.output,
                },
                levels,
                Status::Running,
            )
        },
        _ => (World { tape, input: world.input, output: world.output }, levels, Status::Running),
    }
}

/// Up to `steps` steps of a walk with its host; the walk stops before that
/// where it ends or fails.
pub open spec fn hosted_run(world: World, levels: Seq<Level>, steps: nat) -> (
    World,
    Seq<Level>,
    Status,
)
    decreases steps,
{
    if steps == 0 {
        (world, levels, Status::Running)
    } else {
        let (after, levels, status) = hosted_step(world, levels);
        if status is Running {
            hosted_run(after, levels, (steps - 1) as nat)
        } else {
            (after, levels, status)
        }
    }
}

/// Steps of a walk add up: a run of `first + second` steps is a run of
/// `first` steps and, where the walk still goes on, a run of `second` steps
/// from there.
pub proof fn lemma_hosted_run_adds(world: World, levels: Seq<Level>, first: nat, second: nat)
    ensures
        hosted_run(world, levels, first + second) == ({
            let (after, then, status) = hosted_run(world, levels, first);
            if status is Running {
                hosted_run(after, then, second)
            } else {
                (after, then, status)
            }
        }),
    decreases first,
{
    if first > 0 {
        let (after, then, status) = hosted_step(world, levels);
        if status is Running {
            lemma_hosted_run_adds(after, then, (first - 1) as nat, second);
        }
    }
}

/// The walk of one node does what the node does: from the place of `node` in
/// its block, whatever levels lie `below`, a run of the number of steps that
/// is returned leaves what [`node_outcome`] says, with the place moved on by
/// one; or it fails as [`node_outcome`] says.
pub proof fn lemma_walk_of_node(
    nodes: Seq<Instr>,
    at: int,
    world: World,
    passes: nat,
    below: Seq<Level>,
) -> (steps: nat)
    requires
        0 <= at < nodes.len(),
    ensures
        match node_outcome(nodes[at], world, passes) {
            Outcome::Done(after) => hosted_run(
                world,
                below.push(Level { nodes, next: at }),
                steps,
            ) == (after, below.push(Level { nodes, next: at + 1 }), Status::Running),
            Outcome::Failed(after) => {
                let run = hosted_run(world, below.push(Level { nodes, next: at }), steps);
                run.0 == after && run.2 is Failed
            },
            Outcome::Unfinished => true,
        },
    decreases passes, nodes[at], 0nat,
{
    let node = nodes[at];
    let here = below.push(Level { nodes, next: at });
    let behind = below.push(Level { nodes, next: at + 1 });
    assert(here.drop_last() =~= below);
    assert(here.last() == Level { nodes, next: at });
    match node {
        Instr::Loop(body) => {
            if world.tape.current() == 0 {
                reveal_with_fuel(hosted_run, 2);
                assert(world.tape.after(node) == world.tape);
                1
            } else if passes == 0 {
                0
            } else {
                let inside = here.push(Level { nodes: body, next: 0 });
                let done = here.push(Level { nodes: body, next: body.len() as int });
                assert(hosted_step(world, here) == (world, inside, Status::Running));
                let pass = lemma_walk_of_block(body, 0, world, (passes - 1) as nat, here);
                match block_outcome(body, 0, world, (passes - 1) as nat) {
                    Outcome::Done(after) => {
                        assert(done.drop_last() =~= here);
                        assert(hosted_step(after, done) == (after, here, Status::Running));
                        let more = lemma_walk_of_node(nodes, at, after, (passes - 1) as nat, below);
                        lemma_hosted_run_adds(world, here, 1, pass + 1 + more);
                        lemma_hosted_run_adds(world, here, 1, 0);
                        lemma_hosted_run_adds(world, inside, pass, 1 + more);
                        lemma_hosted_run_adds(after, done, 1, more);
                        lemma_hosted_run_adds(after, done, 1, 0);
                        1 + pass + 1 + more
                    },
                    Outcome::Failed(after) => {
                        lemma_hosted_run_adds(world, here, 1, pass);
                        lemma_hosted_run_adds(world, here, 1, 0);
                        1 + pass
                    },
                    Outcome::Unfinished => 0,
                }
            }
        },
        _ => {
            reveal_with_fuel(hosted_run, 2);
            1
        },
    }
}

/// The walk of a block does what the block does: from place `from` of the
/// block, whatever levels lie `below`, a run of the number of steps that is
/// returned leaves what [`block_outcome`] says, with the place at the end of
/// the block; or it fails as [`block_outcome`] says.
pub proof fn lemma_walk_of_block(
    nodes: Seq<Instr>,
    from: int,
    world: World,
    passes: nat,
    below: Seq<Level>,
) -> (steps: nat)
    requires
        0 <= from <= nodes.len(),
    ensures
        match block_outcome(nodes, from, world, passes) {
            Outcome::Done(after) => hosted_run(
                world,
                below.push(Level { nodes, next: from }),
                steps,
            ) == (after, below.push(Level { nodes, next: nodes.len() as int }), Status::Running),
            Outcome::Failed(after) => {
                let run = hosted_run(world, below.push(Level { nodes, next: from }), steps);
                run.0 == after && run.2 is Failed
            },
            Outcome::Unfinished => true,
        },
    decreases passes, nodes, nodes.len() - from,
{
    if from == nodes.len() {
        0
    } else {
        let first = lemma_walk_of_node(nodes, from, world, passes, below);
        match node_outcome(nodes[from], world, passes) {
            Outcome::Done(after) => {
                let rest = lemma_walk_of_block(nodes, from + 1, after, passes, below);
                lemma_hosted_run_adds(world, below.push(Level { nodes, next: from }), first, rest);
                first + rest
            },
            Outcome::Failed(after) => first,
            Outcome::Unfinished => 0,
        }
    }
}

/// The walk of a program does what the program does: where the program ends,
/// the walk halts after the number of steps that is returned, with no level
/// left, and the tape, the input that is left and the output are those that
/// the program leaves; where the program fails for want of input, so does the
/// walk, with the same left behind.
pub proof fn lemma_walk_of_program(program: Seq<Instr>, world: World, passes: nat) -> (steps: nat)
    ensures
        match program_outcome(program, world, passes) {
            Outcome::Done(after) => hosted_run(
                world,
                seq![Level { nodes: program, next: 0 }],
                steps,
            ) == (after, Seq::<Level>::empty(), Status::Halted),
            Outcome::Failed(after) => {
                let run = hosted_run(world, seq![Level { nodes: program, next: 0 }], steps);
                run.0 == after && run.2 is Failed
            },
            Outcome::Unfinished => true,
        },
{
    let below = Seq::<Level>::empty();
    let start = below.push(Level { nodes: program, next: 0 });
    assert(start =~= seq![Level { nodes: program, next: 0 }]);
    let walk = lemma_walk_of_block(program, 0, world, passes, below);
    match program_outcome(program, world, passes) {
        Outcome::Done(after) => {
            let end = below.push(Level { nodes: program, next: program.len() as int });
            assert(end.drop_last() =~= below);
            assert(hosted_step(after, end) == (after, below, Status::Halted));
            reveal_with_fuel(hosted_run, 2);
            lemma_hosted_run_adds(world, start, walk, 1);
            walk + 1
        },
        _ => walk,
    }
}

} // verus!
