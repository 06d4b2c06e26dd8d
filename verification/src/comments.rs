//! Comment text: it makes no difference to the program that a source stands
//! for.

use crate::balance::{balanced, lemma_program_iff_balanced};
use crate::grammar::{
    body_at, comment_len, is_instruction, lemma_comment_ends_at_instruction,
    lemma_comment_len_bound, lemma_node_shorter, node_at, nodes_at, program_of, skipped_if_any,
    tagged, Failure, CLOSE,
};
use vstd::prelude::*;

verus! {

/// `s` without its comment text: the instruction bytes of `s`, in their order.
pub open spec fn stripped(s: Seq<u8>) -> Seq<u8> {
    s.filter(|byte: u8| is_instruction(byte))
}

/// What stripping does to the first byte of a source: an instruction stays in
/// front of what the rest becomes, and a comment byte goes.
pub proof fn lemma_stripped_first(s: Seq<u8>)
    requires
        s.len() > 0,
    ensures
        stripped(s) == if is_instruction(s[0]) {
            seq![s[0]] + stripped(s.skip(1))
        } else {
            stripped(s.skip(1))
        },
{
    let keep = |byte: u8| is_instruction(byte);
    let first = seq![s[0]];
    assert(s =~= first + s.skip(1));
    Seq::filter_distributes_over_add(first, s.skip(1), keep);
    reveal_with_fuel(Seq::filter, 2);
    assert(first.drop_last() =~= Seq::<u8>::empty());
    if is_instruction(s[0]) {
        assert(first.filter(keep) =~= first);
    } else {
        assert(first.filter(keep) =~= Seq::<u8>::empty());
        assert(Seq::<u8>::empty() + stripped(s.skip(1)) =~= stripped(s.skip(1)));
    }
}

/// A comment at the start of a source goes when the source is stripped, and a
/// stripped source starts with no comment.
proof fn lemma_stripped_after_comment(s: Seq<u8>)
    ensures
        stripped(s.skip(comment_len(s) as int)) == stripped(s),
        stripped(skipped_if_any(s, true).0) == stripped(s),
        comment_len(stripped(s)) == 0,
        skipped_if_any(stripped(s), true).0 == stripped(s),
        stripped(s).len() == 0 <==> comment_len(s) == s.len(),
        stripped(s).len() > 0 ==> stripped(s)[0] == s[comment_len(s) as int],
    decreases s.len(),
{
    lemma_comment_len_bound(s);
    if s.len() == 0 {
        reveal_with_fuel(Seq::filter, 1);
        assert(s.skip(0) =~= s);
        assert(stripped(s) =~= Seq::<u8>::empty());
    } else {
        lemma_stripped_first(s);
        if is_instruction(s[0]) {
            assert(s.skip(0) =~= s);
        } else {
            lemma_comment_len_bound(s.skip(1));
            lemma_stripped_after_comment(s.skip(1));
            assert(s.skip(1).skip(comment_len(s.skip(1)) as int) =~= s.skip(
                comment_len(s) as int,
            ));
        }
    }
    assert(stripped(s).skip(0) =~= stripped(s));
}

/// What stands behind the first instruction of a source, stripped, is what
/// stands behind the first byte of the stripped source.
proof fn lemma_stripped_behind_first(s: Seq<u8>)
    requires
        comment_len(s) < s.len(),
    ensures
        stripped(s).len() > 0,
        stripped(s)[0] == s[comment_len(s) as int],
        stripped(s).skip(1) == stripped(s.skip(comment_len(s) as int).skip(1)),
        skipped_if_any(stripped(s).skip(1), true).0 == stripped(
            skipped_if_any(s.skip(comment_len(s) as int).skip(1), true).0,
        ),
{
    let at = s.skip(comment_len(s) as int);
    lemma_stripped_after_comment(s);
    lemma_comment_ends_at_instruction(s);
    lemma_stripped_first(at);
    let behind = stripped(at.skip(1));
    assert((seq![at[0]] + behind).skip(1) =~= behind);
    lemma_stripped_after_comment(at.skip(1));
}

/// The node at the start of a source is the node at the start of the stripped
/// source, and what it leaves of the one is, stripped, what it leaves of the
/// other; where the one has no node, neither has the other.
proof fn lemma_node_without_comments(s: Seq<u8>)
    ensures
        node_at(s, true) matches Ok((rest, node)) ==> node_at(stripped(s), true) == Ok::<
            _,
            Failure,
        >((stripped(rest), node)),
        node_at(s, true) is Err ==> node_at(stripped(s), true) is Err,
    decreases s.len(), 0int,
{
    lemma_comment_len_bound(s);
    lemma_stripped_after_comment(s);
    let at = s.skip(comment_len(s) as int);
    if at.len() > 0 {
        lemma_stripped_behind_first(s);
        lemma_comment_len_bound(at.skip(1));
        let inner = skipped_if_any(at.skip(1), true).0;
        lemma_stripped_len(inner);
        lemma_stripped_len(s);
        if inner.len() < s.len() {
            lemma_body_without_comments(inner);
        }
        lemma_stripped_first(at);
    }
}

/// A stripped source is no longer than the source.
proof fn lemma_stripped_len(s: Seq<u8>)
    ensures
        stripped(s).len() <= s.len(),
{
    s.lemma_filter_len(|byte: u8| is_instruction(byte));
}

/// As [`lemma_node_without_comments`], for the body of a loop.
proof fn lemma_body_without_comments(s: Seq<u8>)
    ensures
        body_at(s, true) matches Ok((rest, body)) ==> body_at(stripped(s), true) == Ok::<
            _,
            Failure,
        >((stripped(rest), body)),
        body_at(s, true) is Err ==> body_at(stripped(s), true) is Err,
    decreases s.len(), 1int,
{
    lemma_comment_len_bound(s);
    lemma_stripped_after_comment(s);
    let at = s.skip(comment_len(s) as int);
    if at.len() > 0 {
        lemma_stripped_behind_first(s);
    }
    if tagged(s, true, CLOSE) is Err {
        lemma_node_without_comments(s);
        lemma_node_shorter(s, true);
        lemma_node_shorter(stripped(s), true);
        if let Ok((rest, _)) = node_at(s, true) {
            lemma_body_without_comments(rest);
        }
    }
}

/// As [`lemma_node_without_comments`], for the nodes at the start of a source.
proof fn lemma_nodes_without_comments(s: Seq<u8>)
    ensures
        nodes_at(stripped(s), true) == (stripped(nodes_at(s, true).0), nodes_at(s, true).1),
    decreases s.len(),
{
    lemma_node_without_comments(s);
    lemma_node_shorter(s, true);
    lemma_node_shorter(stripped(s), true);
    if let Ok((rest, _)) = node_at(s, true) {
        lemma_nodes_without_comments(rest);
    }
}

/// Comment text has no effect: a source and the same source without its
/// comment bytes are the same program, or neither is a program.
pub proof fn lemma_comments_have_no_effect(s: Seq<u8>)
    ensures
        program_of(s, true) matches Ok(program) ==> program_of(stripped(s), true) == Ok::<
            _,
            Failure,
        >(program),
        program_of(s, true) is Err ==> program_of(stripped(s), true) is Err,
{
    lemma_nodes_without_comments(s);
    let end = nodes_at(s, true).0;
    lemma_stripped_after_comment(end);
    lemma_comment_len_bound(end);
}

/// A source whose brackets match parses, comment text or none, and it parses
/// to the program that it parses to with its comment text taken out.
pub proof fn lemma_balanced_source_parses(s: Seq<u8>)
    requires
        balanced(s),
    ensures
        program_of(s, true) is Ok,
        program_of(stripped(s), true) == program_of(s, true),
{
    lemma_program_iff_balanced(s);
    lemma_comments_have_no_effect(s);
}

} // verus!
