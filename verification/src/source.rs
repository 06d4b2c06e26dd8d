//! From a program back to a source: the parser is the inverse of writing a
//! program down.

use crate::ast::Instr;
use crate::grammar::{
    body_at, comment_len, is_instruction, node_at, nodes_at, program_of, skipped_if_any, Failure,
    CLOSE, OPEN,
};
use vstd::prelude::*;

verus! {

/// A node written down: the byte of an instruction, or a loop's body between
/// brackets, without comment text.
pub open spec fn source_of_node(node: Instr) -> Seq<u8>
    decreases node,
{
    match node {
        Instr::LShift => seq![0x3cu8],
        Instr::RShift => seq![0x3eu8],
        Instr::Inc => seq![0x2bu8],
        Instr::Dec => seq![0x2du8],
        Instr::PutCh => seq![0x2eu8],
        Instr::GetCh => seq![0x2cu8],
        Instr::Loop(body) => seq![OPEN] + source_of(body) + seq![CLOSE],
    }
}

/// A program written down: its nodes, each written down, in their order.
pub open spec fn source_of(nodes: Seq<Instr>) -> Seq<u8>
    decreases nodes,
{
    if nodes.len() == 0 {
        Seq::empty()
    } else {
        source_of_node(nodes[0]) + source_of(nodes.skip(1))
    }
}

/// Whether nothing but instructions can stand at the start of `s`: `s` is
/// empty, or starts with an instruction.
pub open spec fn starts_clean(s: Seq<u8>) -> bool {
    s.len() == 0 || is_instruction(s[0])
}

/// A node written down starts with an instruction that is no closing bracket.
proof fn lemma_source_of_node_starts(node: Instr)
    ensures
        source_of_node(node).len() > 0,
        is_instruction(source_of_node(node)[0]),
        source_of_node(node)[0] != CLOSE,
        node is Loop <==> source_of_node(node)[0] == OPEN,
{
}

/// A program written down starts with no comment.
proof fn lemma_source_starts_clean(nodes: Seq<Instr>)
    ensures
        starts_clean(source_of(nodes)),
{
    if nodes.len() > 0 {
        lemma_source_of_node_starts(nodes[0]);
    }
}

/// Where nothing but instructions can stand at the start of `s`, skipping a
/// comment there skips nothing.
proof fn lemma_nothing_to_skip(s: Seq<u8>)
    requires
        starts_clean(s),
    ensures
        comment_len(s) == 0,
        skipped_if_any(s, true).0 == s,
{
    assert(s.skip(0) =~= s);
}

/// A node that was written down is read back as it was, and what stood
/// behind it is left.
proof fn lemma_node_read_back(node: Instr, tail: Seq<u8>)
    requires
        starts_clean(tail),
    ensures
        node_at(source_of_node(node) + tail, true) == Ok::<_, Failure>((tail, node)),
    decreases node,
{
    let s = source_of_node(node) + tail;
    lemma_source_of_node_starts(node);
    lemma_nothing_to_skip(s);
    lemma_nothing_to_skip(tail);
    match node {
        Instr::Loop(body) => {
            let inner = source_of(body) + seq![CLOSE] + tail;
            assert(s.skip(1) =~= inner);
            lemma_source_starts_clean(body);
            lemma_nothing_to_skip(inner);
            lemma_body_read_back(body, tail);
        },
        _ => {
            assert(s.skip(1) =~= tail);
        },
    }
}

/// The body of a loop that was written down, with the closing bracket behind
/// it, is read back as it was, and what stood behind the bracket is left.
proof fn lemma_body_read_back(nodes: Seq<Instr>, tail: Seq<u8>)
    requires
        starts_clean(tail),
    ensures
        body_at(source_of(nodes) + seq![CLOSE] + tail, true) == Ok::<_, Failure>((tail, nodes)),
    decreases nodes,
{
    let s = source_of(nodes) + seq![CLOSE] + tail;
    lemma_nothing_to_skip(tail);
    if nodes.len() == 0 {
        lemma_nothing_to_skip(s);
        assert(s.skip(1) =~= tail);
        assert(nodes =~= Seq::<Instr>::empty());
    } else {
        let behind = source_of(nodes.skip(1)) + seq![CLOSE] + tail;
        assert(s =~= source_of_node(nodes[0]) + behind);
        lemma_source_of_node_starts(nodes[0]);
        lemma_source_starts_clean(nodes.skip(1));
        lemma_nothing_to_skip(s);
        lemma_node_read_back(nodes[0], behind);
        lemma_body_read_back(nodes.skip(1), tail);
        assert(seq![nodes[0]] + nodes.skip(1) =~= nodes);
    }
}

/// The nodes of a program that was written down are read back as they were,
/// and nothing is left.
proof fn lemma_nodes_read_back(nodes: Seq<Instr>)
    ensures
        nodes_at(source_of(nodes), true) == (Seq::<u8>::empty(), nodes),
    decreases nodes.len(),
{
    let s = source_of(nodes);
    if nodes.len() == 0 {
        assert(nodes =~= Seq::<Instr>::empty());
    } else {
        let behind = source_of(nodes.skip(1));
        lemma_source_of_node_starts(nodes[0]);
        lemma_source_starts_clean(nodes.skip(1));
        lemma_node_read_back(nodes[0], behind);
        lemma_nodes_read_back(nodes.skip(1));
        assert(seq![nodes[0]] + nodes.skip(1) =~= nodes);
    }
}

/// The round trip: a program that is written down and parsed again is the
/// same program, node for node.
pub proof fn lemma_round_trip(nodes: Seq<Instr>)
    ensures
        program_of(source_of(nodes), true) == Ok::<_, Failure>(nodes),
{
    lemma_nodes_read_back(nodes);
    lemma_nothing_to_skip(Seq::<u8>::empty());
}

/// The parser is a function of the source: two parses of the same bytes give
/// the same program, or fail in the same way, and a source that parses to a
/// program is read back to that program after it was written down again.
pub proof fn lemma_parse_is_deterministic(
    s: Seq<u8>,
    first: Result<Seq<Instr>, Failure>,
    second: Result<Seq<Instr>, Failure>,
)
    requires
        first == program_of(s, true),
        second == program_of(s, true),
    ensures
        first == second,
        first matches Ok(program) ==> program_of(source_of(program), true) == first,
{
    if let Ok(program) = first {
        lemma_round_trip(program);
    }
}

} // verus!
