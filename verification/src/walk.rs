//! The walk of a program tree as the contracts see it: the levels from the
//! program down to the loop body that is running, and the step from one node
//! to the next.

use crate::ast::Instr;
use crate::context::Action;
use crate::tape::Tape;
use vstd::prelude::*;

verus! {

/// The mathematical model of one level of a walk: the nodes of a block, and
/// the place of the node that runs next.
#[verifier::ext_equal]
pub struct Level {
    pub nodes: Seq<Instr>,
    pub next: int,
}

/// Whether level `i` of `levels` is the body of the loop at which the level
/// before it stands.
pub open spec fn body_of_outer(levels: Seq<Level>, i: int) -> bool {
    let outer = levels[i - 1];
    &&& 0 <= outer.next < outer.nodes.len()
    &&& outer.nodes[outer.next] == Instr::Loop(levels[i].nodes)
}

/// Whether the place of level `i` of `levels` lies in its block or just after
/// it.
pub open spec fn place_in_block(levels: Seq<Level>, i: int) -> bool {
    0 <= levels[i].next <= levels[i].nodes.len()
}

/// Whether `levels` can be the levels of a walk, outermost first: each place
/// lies in its block or just after it, and each block but the outermost is the
/// body of the loop at which the level before it stands.
pub open spec fn nested(levels: Seq<Level>) -> bool {
    &&& forall|i: int| 0 <= i < levels.len() ==> #[trigger] place_in_block(levels, i)
    &&& forall|i: int| 0 < i < levels.len() ==> #[trigger] body_of_outer(levels, i)
}

/// One step of a walk: the tape and the levels after it, and what it asks of
/// the host.
///
/// With no level left the walk has ended. A level whose block is done is left:
/// that ends the walk if it was the outermost, and else brings the walk back
/// to the loop whose body it was, which is tested again. Otherwise the node at
/// the innermost place runs for one step; a loop that asks to be entered gets
/// a level for its body, and after any other node the place moves on by one.
pub open spec fn step(tape: Tape, levels: Seq<Level>) -> (Tape, Seq<Level>, Action) {
    if levels.len() == 0 {
        (tape, levels, Action::Halt)
    } else {
        let top = levels.last();
        if !(0 <= top.next < top.nodes.len()) {
            (
                tape,
                levels.drop_last(),
                if levels.len() == 1 {
                    Action::Halt
                } else {
                    Action::Next
                },
            )
        } else {
            let node = top.nodes[top.next];
            let action = tape.asks(node);
            let levels = match node {
                Instr::Loop(body) if action is Enter => levels.push(Level { nodes: body, next: 0 }),
                _ => levels.drop_last().push(Level { nodes: top.nodes, next: top.next + 1 }),
            };
            (tape.after(node), levels, action)
        }
    }
}

/// Whether the cursor can make the move that the next step of a walk asks
/// for, if it asks for one: the cursor is a 64-bit integer.
pub open spec fn cursor_fits(tape: Tape, levels: Seq<Level>) -> bool {
    levels.len() > 0 && 0 <= levels.last().next < levels.last().nodes.len() ==> {
        let node = levels.last().nodes[levels.last().next];
        &&& node is LShift ==> tape.cursor > i64::MIN
        &&& node is RShift ==> tape.cursor < i64::MAX
    }
}

/// A step of a walk leaves levels that can be the levels of a walk.
pub proof fn lemma_step_nested(tape: Tape, levels: Seq<Level>)
    requires
        nested(levels),
    ensures
        nested(step(tape, levels).1),
{
    let after = step(tape, levels).1;
    if levels.len() > 0 {
        let last = levels.len() - 1;
        assert(place_in_block(levels, last));
        assert forall|i: int| 0 <= i < after.len() implies #[trigger] place_in_block(after, i) by {
            if i < last {
                assert(place_in_block(levels, i));
            }
        }
        assert forall|i: int| 0 < i < after.len() implies #[trigger] body_of_outer(after, i) by {
            if i <= last {
                assert(body_of_outer(levels, i));
            }
        }
    }
}

/// A loop whose cell holds zero runs its body zero times: the step that meets
/// it goes on to the node behind it, opens no level for the body, and leaves
/// the tape as it is.
pub proof fn lemma_loop_skipped(tape: Tape, levels: Seq<Level>, body: Seq<Instr>)
    requires
        levels.len() > 0,
        0 <= levels.last().next < levels.last().nodes.len(),
        levels.last().nodes[levels.last().next] == Instr::Loop(body),
        tape.current() == 0,
    ensures
        step(tape, levels) == (
            tape,
            levels.drop_last().push(
                Level { nodes: levels.last().nodes, next: levels.last().next + 1 },
            ),
            Action::Next,
        ),
{
}

/// A loop whose cell does not hold zero runs its body from the first node,
/// and is tested again when the body is done: the step that ends the body
/// brings the walk back to the loop itself, not to the node behind it.
pub proof fn lemma_loop_entered(tape: Tape, levels: Seq<Level>, body: Seq<Instr>)
    requires
        levels.len() > 0,
        0 <= levels.last().next < levels.last().nodes.len(),
        levels.last().nodes[levels.last().next] == Instr::Loop(body),
        tape.current() != 0,
    ensures
        step(tape, levels) == (tape, levels.push(Level { nodes: body, next: 0 }), Action::Enter),
        forall|then: Tape|
            step(then, levels.push(Level { nodes: body, next: body.len() as int })) == (
                then,
                levels,
                Action::Next,
            ),
{
    assert forall|then: Tape|
        step(then, levels.push(Level { nodes: body, next: body.len() as int })) == (
            then,
            levels,
            Action::Next,
        ) by {
        let inside = levels.push(Level { nodes: body, next: body.len() as int });
        assert(inside.drop_last() =~= levels);
    }
}

} // verus!
