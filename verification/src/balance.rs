//! Balanced brackets: exactly the sources that are programs.

use crate::grammar::{
    body_at, comment_len, is_instruction, lemma_comment_ends_at_instruction,
    lemma_comment_len_bound, lemma_node_shorter, node_at, nodes_at, program_of, skipped_if_any,
    tagged, CLOSE, OPEN,
};
use vstd::prelude::*;

verus! {

/// Whether the brackets of `s` match when `open` loops are open before it:
/// no closing bracket stands where no loop is open, and no loop is left open
/// at the end.
pub open spec fn closes(s: Seq<u8>, open: nat) -> bool
    decreases s.len(),
{
    if s.len() == 0 {
        open == 0
    } else if s[0] == OPEN {
        closes(s.skip(1), open + 1)
    } else if s[0] == CLOSE {
        open > 0 && closes(s.skip(1), (open - 1) as nat)
    } else {
        closes(s.skip(1), open)
    }
}

/// Whether the brackets of `s` match: every closing bracket closes a loop
/// that was opened before it, and every opening bracket is closed after it.
pub open spec fn balanced(s: Seq<u8>) -> bool {
    closes(s, 0)
}

/// A comment at the start of `s` makes no difference to its brackets.
proof fn lemma_closes_after_comment(s: Seq<u8>, open: nat)
    ensures
        closes(s, open) == closes(s.skip(comment_len(s) as int), open),
        closes(s, open) == closes(skipped_if_any(s, true).0, open),
    decreases s.len(),
{
    lemma_comment_len_bound(s);
    if s.len() == 0 || is_instruction(s[0]) {
        assert(s.skip(0) =~= s);
    } else {
        lemma_comment_len_bound(s.skip(1));
        lemma_closes_after_comment(s.skip(1), open);
        assert(s.skip(1).skip(comment_len(s.skip(1)) as int) =~= s.skip(comment_len(s) as int));
    }
}

/// A node that is found leaves the count of open loops as it was. Where no
/// node is found, the input has ended, or goes on with a closing bracket, or
/// with a loop that is never closed.
proof fn lemma_node_closes(s: Seq<u8>, open: nat)
    ensures
        node_at(s, true) matches Ok((rest, _)) ==> closes(s, open) == closes(rest, open),
        node_at(s, true) is Err ==> ({
            let at = s.skip(comment_len(s) as int);
            ||| at.len() == 0
            ||| at[0] == CLOSE
            ||| (at[0] == OPEN && !closes(s, open))
        }),
    decreases s.len(), 0int,
{
    lemma_comment_len_bound(s);
    lemma_comment_ends_at_instruction(s);
    lemma_closes_after_comment(s, open);
    let at = s.skip(comment_len(s) as int);
    if at.len() > 0 {
        let inner = skipped_if_any(at.skip(1), true).0;
        lemma_comment_len_bound(at.skip(1));
        lemma_closes_after_comment(at.skip(1), open);
        lemma_closes_after_comment(at.skip(1), open + 1);
        if at[0] == OPEN {
            lemma_body_closes(inner, open);
        }
    }
}

/// A loop body that ends closes one loop. Where it does not end, the loop is
/// never closed.
proof fn lemma_body_closes(s: Seq<u8>, open: nat)
    ensures
        body_at(s, true) matches Ok((rest, _)) ==> closes(s, open + 1) == closes(rest, open),
        body_at(s, true) is Err ==> !closes(s, open + 1),
    decreases s.len(), 1int,
{
    lemma_comment_len_bound(s);
    lemma_comment_ends_at_instruction(s);
    lemma_closes_after_comment(s, open + 1);
    let at = s.skip(comment_len(s) as int);
    if at.len() > 0 {
        lemma_comment_len_bound(at.skip(1));
        lemma_closes_after_comment(at.skip(1), open);
    }
    if tagged(s, true, CLOSE) is Err {
        lemma_node_closes(s, open + 1);
        lemma_node_shorter(s, true);
        if let Ok((rest, _)) = node_at(s, true) {
            lemma_body_closes(rest, open);
        }
    }
}

/// The nodes that stand at the start of `s` leave the count of open loops as
/// it was, and no node starts where they end.
proof fn lemma_nodes_closes(s: Seq<u8>, open: nat)
    ensures
        closes(s, open) == closes(nodes_at(s, true).0, open),
        node_at(nodes_at(s, true).0, true) is Err,
    decreases s.len(),
{
    lemma_node_shorter(s, true);
    if let Ok((rest, _)) = node_at(s, true) {
        lemma_node_closes(s, open);
        lemma_nodes_closes(rest, open);
    }
}

/// A source is a program if and only if its brackets match: one unmatched
/// opening bracket, or one unmatched closing bracket, makes it fail, and
/// nothing else does.
pub proof fn lemma_program_iff_balanced(s: Seq<u8>)
    ensures
        program_of(s, true) is Ok <==> balanced(s),
{
    let end = nodes_at(s, true).0;
    lemma_nodes_closes(s, 0);
    lemma_node_closes(end, 0);
    lemma_closes_after_comment(end, 0);
    lemma_comment_len_bound(end);
}

/// Brackets that match can be left out in front: behind a source whose
/// brackets match when `open` loops are open before it, as many loops are open
/// as were open before those.
proof fn lemma_closes_in_front(front: Seq<u8>, open: nat, behind: Seq<u8>, more: nat)
    requires
        closes(front, open),
    ensures
        closes(front + behind, open + more) == closes(behind, more),
    decreases front.len(),
{
    let s = front + behind;
    if front.len() == 0 {
        assert(s =~= behind);
    } else {
        assert(s[0] == front[0]);
        assert(s.skip(1) =~= front.skip(1) + behind);
        if front[0] == OPEN {
            lemma_closes_in_front(front.skip(1), open + 1, behind, more);
        } else if front[0] == CLOSE {
            lemma_closes_in_front(front.skip(1), (open - 1) as nat, behind, more);
        } else {
            lemma_closes_in_front(front.skip(1), open, behind, more);
        }
    }
}

/// An opening bracket that nothing behind it closes leaves a loop open,
/// whatever stands before it.
proof fn lemma_never_closed(front: Seq<u8>, behind: Seq<u8>, open: nat)
    requires
        balanced(behind),
    ensures
        !closes(front + seq![OPEN] + behind, open),
    decreases front.len(),
{
    let s = front + seq![OPEN] + behind;
    if front.len() == 0 {
        assert(s.skip(1) =~= behind + Seq::<u8>::empty());
        lemma_closes_in_front(behind, 0, Seq::empty(), open + 1);
    } else {
        assert(s[0] == front[0]);
        assert(s.skip(1) =~= front.skip(1) + seq![OPEN] + behind);
        if front[0] == OPEN {
            lemma_never_closed(front.skip(1), behind, open + 1);
        } else if front[0] == CLOSE {
            if open > 0 {
                lemma_never_closed(front.skip(1), behind, (open - 1) as nat);
            }
        } else {
            lemma_never_closed(front.skip(1), behind, open);
        }
    }
}

/// A source with an unmatched closing bracket is no program: where the
/// brackets before a closing bracket match among themselves, that bracket
/// closes no loop, and parsing fails whatever follows.
pub proof fn lemma_unmatched_close_fails(front: Seq<u8>, behind: Seq<u8>)
    requires
        balanced(front),
    ensures
        program_of(front + seq![CLOSE] + behind, true) is Err,
{
    let tail = seq![CLOSE] + behind;
    assert(front + seq![CLOSE] + behind =~= front + tail);
    lemma_closes_in_front(front, 0, tail, 0);
    lemma_program_iff_balanced(front + tail);
}

/// A source with an unmatched opening bracket is no program: where the
/// brackets behind an opening bracket match among themselves, none of them
/// closes its loop, and parsing fails whatever stands before.
pub proof fn lemma_unmatched_open_fails(front: Seq<u8>, behind: Seq<u8>)
    requires
        balanced(behind),
    ensures
        program_of(front + seq![OPEN] + behind, true) is Err,
{
    lemma_never_closed(front, behind, 0);
    lemma_program_iff_balanced(front + seq![OPEN] + behind);
}

} // verus!
