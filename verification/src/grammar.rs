//! The grammar of the language, as functions on sequences of bytes.
//!
//! A source is a sequence of nodes. A node is one of the six instructions
//! `<`, `>`, `+`, `-`, `.`, `,`, or a loop: `[`, the nodes of its body, `]`.
//! Every other byte is comment text and may stand anywhere.
//!
//! Each function here takes the bytes that are left and says where the thing it
//! describes ends and what it is. `whole` says whether the bytes are all there
//! will be: where they are not, a function that runs into their end asks for
//! more instead of failing.

use crate::ast::{token_of, Instr, Token};
use vstd::prelude::*;

verus! {

/// How many more bytes a parser wants before it can decide.
#[derive(Debug, Clone, Copy, PartialEq, Eq)]
pub enum Needed {
    /// More bytes, it is not known how many.
    Unknown,
    /// At least this many bytes.
    Size(usize),
}

/// What a parser was looking for when it gave up.
#[derive(Debug, Clone, Copy, PartialEq, Eq)]
pub enum ErrorKind {
    /// One given instruction, where another one stands.
    Tag,
    /// A node, where none starts.
    Alt,
    /// The end of a loop body, where no node and no closing bracket follows.
    ManyTill,
    /// The end of the input where bytes are left, or a byte where the input
    /// has ended.
    Eof,
}

/// Why a parser did not succeed: the mathematical model of a
/// [`ParseError`](crate::parser::ParseError).
pub enum Failure {
    /// The input ended too early to decide, and may go on.
    Incomplete(Needed),
    /// The input is not what the parser looks for; the first field is the
    /// input from the place of the failure on.
    Error(Seq<u8>, ErrorKind),
}

/// What a parser gives on success, in the model: the bytes that it left,
/// and its value.
pub type Parsed<V> = Result<(Seq<u8>, V), Failure>;

/// The byte that opens a loop.
pub const OPEN: u8 = 0x5b;

/// The byte that closes a loop.
pub const CLOSE: u8 = 0x5d;

/// Whether a byte is one of the eight instruction characters.
pub open spec fn is_instruction(byte: u8) -> bool {
    token_of(byte as char) is Some
}

/// The number of comment bytes before the first instruction of `s`: all of
/// `s` where it holds no instruction.
pub open spec fn comment_len(s: Seq<u8>) -> nat
    decreases s.len(),
{
    if s.len() == 0 || is_instruction(s[0]) {
        0
    } else {
        1 + comment_len(s.skip(1))
    }
}

/// The comment at the start of `s` and what follows it: what follows first,
/// then the comment.
///
/// Input that may go on and holds no instruction is incomplete: its comment
/// may not have ended yet.
pub open spec fn skipped(s: Seq<u8>, whole: bool) -> Parsed<Seq<u8>> {
    let n = comment_len(s) as int;
    if n == s.len() && !whole {
        Err(Failure::Incomplete(Needed::Size(1)))
    } else {
        Ok((s.skip(n), s.take(n)))
    }
}

/// As [`skipped`], but input that is incomplete is left where it is, with an
/// empty comment.
pub open spec fn skipped_if_any(s: Seq<u8>, whole: bool) -> (Seq<u8>, Seq<u8>) {
    match skipped(s, whole) {
        Ok(parts) => parts,
        Err(_) => (s, Seq::empty()),
    }
}

/// The instruction byte `tag` with the comments around it: what follows the
/// comment behind it, and the byte itself.
///
/// The comment in front is skipped first. Then the input must go on with
/// `tag`: another instruction is an error of kind `Tag`, and the end of whole
/// input one of kind `Eof`, both at the place after the comment.
pub open spec fn tagged(s: Seq<u8>, whole: bool, tag: u8) -> Parsed<Seq<u8>> {
    match skipped(s, whole) {
        Err(failure) => Err(failure),
        Ok((at, _)) => if at.len() == 0 {
            if whole {
                Err(Failure::Error(at, ErrorKind::Eof))
            } else {
                Err(Failure::Incomplete(Needed::Size(1)))
            }
        } else if at[0] != tag {
            Err(Failure::Error(at, ErrorKind::Tag))
        } else {
            Ok((skipped_if_any(at.skip(1), whole).0, at.take(1)))
        },
    }
}

/// The instruction `instr`, written as the byte `tag`, with the comments
/// around it.
pub open spec fn instruction_at(s: Seq<u8>, whole: bool, tag: u8, instr: Instr) -> Parsed<Instr> {
    match tagged(s, whole, tag) {
        Ok((rest, _)) => Ok((rest, instr)),
        Err(failure) => Err(failure),
    }
}

/// The node that an instruction other than a bracket stands for.
pub open spec fn plain_instr(token: Token) -> Option<Instr> {
    match token {
        Token::LShift => Some(Instr::LShift),
        Token::RShift => Some(Instr::RShift),
        Token::Plus => Some(Instr::Inc),
        Token::Minus => Some(Instr::Dec),
        Token::Dot => Some(Instr::PutCh),
        Token::Comma => Some(Instr::GetCh),
        Token::LBracket => None,
        Token::RBracket => None,
    }
}

/// `nodes`, where it is a success, with `front` before its value.
pub open spec fn with_front(front: Seq<Instr>, nodes: Parsed<Seq<Instr>>) -> Parsed<Seq<Instr>> {
    match nodes {
        Ok((rest, nodes)) => Ok((rest, front + nodes)),
        Err(failure) => Err(failure),
    }
}

/// The node at the start of `s`, comments skipped: an instruction other than
/// a bracket, or a loop from its opening bracket to the closing bracket that
/// matches it.
///
/// Where no node starts (at a closing bracket, at the end of whole input, at
/// a loop that does not close) the error has the kind `Alt` and the place
/// `s`. Input that may go on and ends before the node does is incomplete.
pub open spec fn node_at(s: Seq<u8>, whole: bool) -> Parsed<Instr>
    decreases s.len(), 0int,
{
    match skipped(s, whole) {
        Err(failure) => Err(failure),
        Ok((at, _)) => if at.len() == 0 {
            Err(Failure::Error(s, ErrorKind::Alt))
        } else {
            match token_of(at[0] as char) {
                None => Err(Failure::Error(s, ErrorKind::Alt)),
                Some(Token::RBracket) => Err(Failure::Error(s, ErrorKind::Alt)),
                Some(Token::LBracket) => {
                    let inner = skipped_if_any(at.skip(1), whole).0;
                    proof {
                        lemma_comment_len_bound(s);
                        lemma_comment_len_bound(at.skip(1));
                    }
                    match body_at(inner, whole) {
                        Ok((rest, body)) => Ok((rest, Instr::Loop(body))),
                        Err(Failure::Incomplete(needed)) => Err(Failure::Incomplete(needed)),
                        Err(Failure::Error(_, _)) => Err(Failure::Error(s, ErrorKind::Alt)),
                    }
                },
                Some(token) => Ok((skipped_if_any(at.skip(1), whole).0, plain_instr(token).unwrap())),
            }
        },
    }
}

/// The body of a loop whose opening bracket has been read: the nodes up to the
/// closing bracket that ends the body.
///
/// Where neither a closing bracket nor a node follows, the error has the kind
/// `ManyTill` and the place where that is so. (The test that a node took
/// bytes is there to end the definition: by [`lemma_node_shorter`] it always
/// holds.)
pub open spec fn body_at(s: Seq<u8>, whole: bool) -> Parsed<Seq<Instr>>
    decreases s.len(), 1int,
{
    match tagged(s, whole, CLOSE) {
        Ok((rest, _)) => Ok((rest, Seq::empty())),
        Err(_) => match node_at(s, whole) {
            Err(Failure::Incomplete(needed)) => Err(Failure::Incomplete(needed)),
            Err(Failure::Error(_, _)) => Err(Failure::Error(s, ErrorKind::ManyTill)),
            Ok((rest, node)) => if rest.len() < s.len() {
                with_front(seq![node], body_at(rest, whole))
            } else {
                Err(Failure::Error(s, ErrorKind::ManyTill))
            },
        },
    }
}

/// A loop at the start of `s`, comments skipped, from its opening bracket to
/// the closing bracket that matches it.
pub open spec fn loop_at(s: Seq<u8>, whole: bool) -> Parsed<Instr> {
    match tagged(s, whole, OPEN) {
        Err(failure) => Err(failure),
        Ok((inner, _)) => match body_at(inner, whole) {
            Ok((rest, body)) => Ok((rest, Instr::Loop(body))),
            Err(failure) => Err(failure),
        },
    }
}

/// The nodes at the start of `s`, as many as there are, and the bytes from
/// the place where no further node starts. (The test that a node took bytes
/// is there to end the definition: by [`lemma_node_shorter`] it always holds.)
pub open spec fn nodes_at(s: Seq<u8>, whole: bool) -> (Seq<u8>, Seq<Instr>)
    decreases s.len(),
{
    match node_at(s, whole) {
        Ok((rest, node)) => if rest.len() < s.len() {
            let (end, nodes) = nodes_at(rest, whole);
            (end, seq![node] + nodes)
        } else {
            (s, Seq::empty())
        },
        Err(_) => (s, Seq::empty()),
    }
}

/// The program that `s` is the source of.
///
/// It is made of the nodes of `s`, as many as there are; the input must be
/// whole, and nothing but comment may follow the last node. Else the error
/// has the kind `Eof` and the place where no further node starts: there, or
/// behind a comment there, stands a closing bracket that closes no loop, or
/// the opening bracket of a loop that does not close.
pub open spec fn program_of(s: Seq<u8>, whole: bool) -> Result<Seq<Instr>, Failure> {
    let (end, nodes) = nodes_at(s, whole);
    if whole && skipped_if_any(end, whole).0.len() == 0 {
        Ok(nodes)
    } else {
        Err(Failure::Error(end, ErrorKind::Eof))
    }
}

/// The comment at the start of `s` is no longer than `s`.
pub proof fn lemma_comment_len_bound(s: Seq<u8>)
    ensures
        comment_len(s) <= s.len(),
    decreases s.len(),
{
    if s.len() > 0 && !is_instruction(s[0]) {
        lemma_comment_len_bound(s.skip(1));
    }
}

/// The byte that a comment ends at is an instruction.
pub proof fn lemma_comment_ends_at_instruction(s: Seq<u8>)
    ensures
        comment_len(s) < s.len() ==> is_instruction(s[comment_len(s) as int]),
    decreases s.len(),
{
    if s.len() > 0 && !is_instruction(s[0]) {
        lemma_comment_ends_at_instruction(s.skip(1));
    }
}

/// Skipping a comment leaves no more bytes than there were.
pub proof fn lemma_skipped_len(s: Seq<u8>, whole: bool)
    ensures
        skipped_if_any(s, whole).0.len() <= s.len(),
        skipped(s, whole) matches Ok((rest, _)) ==> rest.len() <= s.len(),
{
    lemma_comment_len_bound(s);
}

/// An instruction byte that is found takes at least itself from the input.
pub proof fn lemma_tagged_shorter(s: Seq<u8>, whole: bool, tag: u8)
    ensures
        tagged(s, whole, tag) matches Ok((rest, _)) ==> rest.len() < s.len(),
{
    lemma_comment_len_bound(s);
    if let Ok((at, _)) = skipped(s, whole) {
        if at.len() > 0 {
            lemma_skipped_len(at.skip(1), whole);
        }
    }
}

/// A node that is found takes at least one byte from the input.
pub proof fn lemma_node_shorter(s: Seq<u8>, whole: bool)
    ensures
        node_at(s, whole) matches Ok((rest, _)) ==> rest.len() < s.len(),
        body_at(s, whole) matches Ok((rest, _)) ==> rest.len() < s.len(),
    decreases s.len(),
{
    lemma_comment_len_bound(s);
    lemma_tagged_shorter(s, whole, CLOSE);
    if let Ok((at, _)) = skipped(s, whole) {
        if at.len() > 0 {
            lemma_skipped_len(at.skip(1), whole);
            let inner = skipped_if_any(at.skip(1), whole).0;
            if inner.len() < s.len() {
                lemma_node_shorter(inner, whole);
            }
        }
    }
    if let Ok((rest, _)) = node_at(s, whole) {
        if rest.len() < s.len() {
            lemma_node_shorter(rest, whole);
        }
    }
}

} // verus!
