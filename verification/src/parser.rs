//! The parser: from source bytes to the program tree.
//!
//! Every byte that is not one of the eight instruction characters is comment
//! text, and may stand anywhere.

use crate::ast::{instrs, Block, Instr, Node, Token};
use crate::grammar::{
    body_at, comment_len, instruction_at, is_instruction, lemma_comment_len_bound,
    lemma_node_shorter, lemma_skipped_len, lemma_tagged_shorter, loop_at, node_at, nodes_at,
    program_of, skipped, skipped_if_any, tagged, with_front, Failure, Parsed, CLOSE, OPEN,
};
pub use crate::grammar::{ErrorKind, Needed};
use vstd::prelude::*;

verus! {

/// Why a parser did not succeed.
#[derive(Debug, PartialEq, Eq)]
pub enum ParseError<T> {
    /// The input ended too early to decide, and may go on.
    Incomplete(Needed),
    /// The input is not what the parser looks for; the first field is the
    /// input at the place of the failure.
    Error(T, ErrorKind),
}

/// A parser's input: bytes, and whether they are all there will be.
pub trait Input: Copy {
    /// The bytes.
    spec fn bytes(&self) -> Seq<u8>;

    /// Whether no more bytes can follow those of an input of this type.
    spec fn whole() -> bool;

    /// The number of bytes.
    fn input_len(&self) -> (len: usize)
        ensures
            len == self.bytes().len(),
    ;

    /// The byte in place `at`.
    fn byte(&self, at: usize) -> (byte: u8)
        requires
            at < self.bytes().len(),
        ensures
            byte == self.bytes()[at as int],
    ;

    /// Whether no more bytes can follow these.
    fn at_eof(&self) -> (whole: bool)
        ensures
            whole == Self::whole(),
    ;

    /// Splits the input after its first `count` bytes: what follows them,
    /// then those bytes.
    fn take_split(&self, count: usize) -> (parts: (Self, Self))
        requires
            count <= self.bytes().len(),
        ensures
            parts.0.bytes() == self.bytes().skip(count as int),
            parts.1.bytes() == self.bytes().take(count as int),
    ;
}

impl<'a> Input for &'a [u8] {
    open spec fn bytes(&self) -> Seq<u8> {
        self@
    }

    open spec fn whole() -> bool {
        false
    }

    fn input_len(&self) -> (len: usize) {
        self.len()
    }

    fn byte(&self, at: usize) -> (byte: u8) {
        self[at]
    }

    fn at_eof(&self) -> (whole: bool) {
        false
    }

    fn take_split(&self, count: usize) -> (parts: (Self, Self)) {
        let (taken, rest) = self.split_at(count);
        (rest, taken)
    }
}

/// Bytes that are a whole program: a parser never asks for more of them.
#[derive(Debug, Clone, Copy, PartialEq, Eq)]
pub struct CompleteByteSlice<'a>(pub &'a [u8]);

impl<'a> Input for CompleteByteSlice<'a> {
    open spec fn bytes(&self) -> Seq<u8> {
        self.0@
    }

    open spec fn whole() -> bool {
        true
    }

    fn input_len(&self) -> (len: usize) {
        self.0.len()
    }

    fn byte(&self, at: usize) -> (byte: u8) {
        self.0[at]
    }

    fn at_eof(&self) -> (whole: bool) {
        true
    }

    fn take_split(&self, count: usize) -> (parts: (Self, Self)) {
        let (taken, rest) = self.0.split_at(count);
        (CompleteByteSlice(rest), CompleteByteSlice(taken))
    }
}

impl<T: Input> View for ParseError<T> {
    type V = Failure;

    open spec fn view(&self) -> Failure {
        match self {
            ParseError::Incomplete(needed) => Failure::Incomplete(*needed),
            ParseError::Error(at, kind) => Failure::Error(at.bytes(), *kind),
        }
    }
}

/// The model of what a parser of byte runs gave.
pub open spec fn run_model<T: Input>(r: Result<(T, T), ParseError<T>>) -> Parsed<Seq<u8>> {
    match r {
        Ok((rest, run)) => Ok((rest.bytes(), run.bytes())),
        Err(e) => Err(e@),
    }
}

/// The model of what a parser of nodes gave.
pub open spec fn node_model<T: Input>(r: Result<(T, Node), ParseError<T>>) -> Parsed<Instr> {
    match r {
        Ok((rest, node)) => Ok((rest.bytes(), node@)),
        Err(e) => Err(e@),
    }
}

/// The model of what the parser of programs gave.
pub open spec fn program_model<T: Input>(r: Result<Block, ParseError<T>>) -> Result<
    Seq<Instr>,
    Failure,
> {
    match r {
        Ok(block) => Ok(block@),
        Err(e) => Err(e@),
    }
}

/// Whether `byte` is an instruction, decided by its token.
fn instruction(byte: u8) -> (yes: bool)
    ensures
        yes == is_instruction(byte),
{
    Token::from_char(byte as char).is_some()
}

/// The number of comment bytes at the start of the input.
fn comment_end<T: Input>(i: &T) -> (n: usize)
    ensures
        n == comment_len(i.bytes()),
        n <= i.bytes().len(),
{
    let len = i.input_len();
    let mut n: usize = 0;
    assert(i.bytes().skip(0) =~= i.bytes());
    while n < len && !instruction(i.byte(n))
        invariant
            len == i.bytes().len(),
            0 <= n <= len,
            comment_len(i.bytes()) == n + comment_len(i.bytes().skip(n as int)),
        decreases len - n,
    {
        assert(i.bytes().skip(n as int).skip(1) =~= i.bytes().skip(n + 1));
        n += 1;
    }
    n
}

/// The lexical filter on a whole source: splits it where its first
/// instruction stands, and gives what starts there, then the comment before
/// it. A source without instructions is all comment. It never fails.
pub fn skip_unknown(i: &[u8]) -> (parts: (&[u8], &[u8]))
    ensures
        parts.0@ == i@.skip(comment_len(i@) as int),
        parts.1@ == i@.take(comment_len(i@) as int),
{
    let n = comment_end(&i);
    let (comment, rest) = i.split_at(n);
    (rest, comment)
}

/// The next instruction of a whole source, with the comments around it taken
/// away: what follows the comment behind it, then the instruction byte.
/// `None` where the source holds no instruction.
pub fn strip_unknown(i: &[u8]) -> (next: Option<(&[u8], &[u8])>)
    ensures
        match next {
            None => comment_len(i@) == i@.len(),
            Some((rest, token)) => {
                let at = i@.skip(comment_len(i@) as int);
                &&& at.len() > 0
                &&& token@ == at.take(1)
                &&& rest@ == skipped_if_any(at.skip(1), true).0
            },
        },
{
    let (at, _) = skip_unknown(i);
    if at.len() == 0 {
        proof {
            lemma_comment_len_bound(i@);
        }
        None
    } else {
        let (token, behind) = at.split_at(1);
        let (rest, _) = skip_unknown(behind);
        Some((rest, token))
    }
}

/// The lexical filter: skips the comment bytes at the start of the input, and
/// gives what follows them, then the comment.
///
/// Input that may go on and holds no instruction is incomplete: its comment
/// may not have ended yet.
pub fn bf_skip_unknown<T: Input>(i: T) -> (r: Result<(T, T), ParseError<T>>)
    ensures
        run_model(r) == skipped(i.bytes(), T::whole()),
{
    let n = comment_end(&i);
    if n == i.input_len() && !i.at_eof() {
        Err(ParseError::Incomplete(Needed::Size(1)))
    } else {
        Ok(i.take_split(n))
    }
}

/// The lexical filter for input that may go on: as [`bf_skip_unknown`], but
/// where that is incomplete nothing is skipped.
pub fn bf_skip_unknown_no_incomplete<T: Input>(i: T) -> (r: Result<(T, T), ParseError<T>>)
    ensures
        run_model(r) == Ok::<_, Failure>(skipped_if_any(i.bytes(), T::whole())),
{
    match bf_skip_unknown(i) {
        Ok(parts) => Ok(parts),
        Err(_) => {
            let (rest, none) = i.take_split(0);
            assert(rest.bytes() =~= i.bytes());
            assert(none.bytes() =~= Seq::<u8>::empty());
            Ok((rest, none))
        },
    }
}

/// The instruction byte `tag` with the comments around it.
fn bf_tag<T: Input>(i: T, tag: u8) -> (r: Result<(T, T), ParseError<T>>)
    ensures
        run_model(r) == tagged(i.bytes(), T::whole(), tag),
{
    let at = match bf_skip_unknown(i) {
        Ok((at, _)) => at,
        Err(e) => {
            return Err(e);
        },
    };
    if at.input_len() == 0 {
        if at.at_eof() {
            Err(ParseError::Error(at, ErrorKind::Eof))
        } else {
            Err(ParseError::Incomplete(Needed::Size(1)))
        }
    } else if at.byte(0) != tag {
        Err(ParseError::Error(at, ErrorKind::Tag))
    } else {
        let (behind, res) = at.take_split(1);
        match bf_skip_unknown_no_incomplete(behind) {
            Ok((rest, _)) => Ok((rest, res)),
            Err(e) => Err(e),
        }
    }
}

/// The instruction `node`, written as the byte `tag`, with the comments
/// around it.
fn bf_instruction<T: Input>(i: T, tag: u8, node: Node) -> (r: Result<(T, Node), ParseError<T>>)
    ensures
        node_model(r) == instruction_at(i.bytes(), T::whole(), tag, node@),
{
    match bf_tag(i, tag) {
        Ok((rest, _)) => Ok((rest, node)),
        Err(e) => Err(e),
    }
}

/// `<`: one cell to the left.
pub fn lshift<T: Input>(i: T) -> (r: Result<(T, Node), ParseError<T>>)
    ensures
        node_model(r) == instruction_at(i.bytes(), T::whole(), 0x3c, Instr::LShift),
{
    bf_instruction(i, 0x3c, Node::LShift)
}

/// `>`: one cell to the right.
pub fn rshift<T: Input>(i: T) -> (r: Result<(T, Node), ParseError<T>>)
    ensures
        node_model(r) == instruction_at(i.bytes(), T::whole(), 0x3e, Instr::RShift),
{
    bf_instruction(i, 0x3e, Node::RShift)
}

/// `+`: increment the cell.
pub fn plus<T: Input>(i: T) -> (r: Result<(T, Node), ParseError<T>>)
    ensures
        node_model(r) == instruction_at(i.bytes(), T::whole(), 0x2b, Instr::Inc),
{
    bf_instruction(i, 0x2b, Node::Inc)
}

/// `-`: decrement the cell.
pub fn minus<T: Input>(i: T) -> (r: Result<(T, Node), ParseError<T>>)
    ensures
        node_model(r) == instruction_at(i.bytes(), T::whole(), 0x2d, Instr::Dec),
{
    bf_instruction(i, 0x2d, Node::Dec)
}

/// `.`: write the cell.
pub fn dot<T: Input>(i: T) -> (r: Result<(T, Node), ParseError<T>>)
    ensures
        node_model(r) == instruction_at(i.bytes(), T::whole(), 0x2e, Instr::PutCh),
{
    bf_instruction(i, 0x2e, Node::PutCh)
}

/// `,`: read into the cell.
pub fn comma<T: Input>(i: T) -> (r: Result<(T, Node), ParseError<T>>)
    ensures
        node_model(r) == instruction_at(i.bytes(), T::whole(), 0x2c, Instr::GetCh),
{
    bf_instruction(i, 0x2c, Node::GetCh)
}

/// A loop, from its opening bracket to the closing bracket that matches it,
/// with the comments around it.
pub fn parse_loop<T: Input>(i: T) -> (r: Result<(T, Node), ParseError<T>>)
    ensures
        node_model(r) == loop_at(i.bytes(), T::whole()),
    decreases i.bytes().len(), 0int,
{
    let inner = match bf_tag(i, OPEN) {
        Ok((inner, _)) => inner,
        Err(e) => {
            return Err(e);
        },
    };
    proof {
        lemma_tagged_shorter(i.bytes(), T::whole(), OPEN);
    }
    let mut res: Vec<Node> = Vec::new();
    let mut input = inner;
    proof {
        if let Ok((_, body)) = body_at(inner.bytes(), T::whole()) {
            assert(instrs(res@) + body =~= body);
        }
    }
    loop
        invariant
            input.bytes().len() < i.bytes().len(),
            body_at(inner.bytes(), T::whole()) == with_front(
                instrs(res@),
                body_at(input.bytes(), T::whole()),
            ),
            loop_at(i.bytes(), T::whole()) == match body_at(inner.bytes(), T::whole()) {
                Ok((rest, body)) => Ok::<_, Failure>((rest, Instr::Loop(body))),
                Err(failure) => Err(failure),
            },
        decreases input.bytes().len(),
    {
        match bf_tag(input, CLOSE) {
            Ok((rest, _)) => {
                assert(instrs(res@) + Seq::<Instr>::empty() =~= instrs(res@));
                return Ok((rest, Node::Loop(Block::from(res))));
            },
            Err(_) => {},
        }
        match node(input) {
            Err(ParseError::Error(_, _)) => {
                return Err(ParseError::Error(input, ErrorKind::ManyTill));
            },
            Err(e) => {
                return Err(e);
            },
            Ok((rest, node)) => {
                proof {
                    lemma_node_shorter(input.bytes(), T::whole());
                    let front = instrs(res@);
                    let next = body_at(rest.bytes(), T::whole());
                    if let Ok((end, nodes)) = next {
                        assert(front + (seq![node@] + nodes) =~= front.push(node@) + nodes);
                    }
                    assert(instrs(res@.push(node)) =~= front.push(node@));
                }
                res.push(node);
                input = rest;
            },
        }
    }
}

/// A node, with the comments around it: the first of `<`, `>`, `+`, `-`,
/// `.`, `,` and a loop that stands at the start of the input.
pub fn node<T: Input>(i: T) -> (r: Result<(T, Node), ParseError<T>>)
    ensures
        node_model(r) == node_at(i.bytes(), T::whole()),
    decreases i.bytes().len(), 1int,
{
    proof {
        let s = i.bytes();
        lemma_comment_len_bound(s);
        if let Ok((at, _)) = skipped(s, T::whole()) {
            if at.len() > 0 {
                lemma_skipped_len(at.skip(1), T::whole());
            }
        }
    }
    match lshift(i) {
        Err(ParseError::Error(_, _)) => {},
        r => {
            return r;
        },
    }
    match rshift(i) {
        Err(ParseError::Error(_, _)) => {},
        r => {
            return r;
        },
    }
    match plus(i) {
        Err(ParseError::Error(_, _)) => {},
        r => {
            return r;
        },
    }
    match minus(i) {
        Err(ParseError::Error(_, _)) => {},
        r => {
            return r;
        },
    }
    match dot(i) {
        Err(ParseError::Error(_, _)) => {},
        r => {
            return r;
        },
    }
    match comma(i) {
        Err(ParseError::Error(_, _)) => {},
        r => {
            return r;
        },
    }
    match parse_loop(i) {
        Err(ParseError::Error(_, _)) => Err(ParseError::Error(i, ErrorKind::Alt)),
        r => r,
    }
}

/// The program that the input is the source of.
pub fn parse<T: Input>(i: T) -> (r: Result<Block, ParseError<T>>)
    ensures
        program_model(r) == program_of(i.bytes(), T::whole()),
{
    let mut res: Vec<Node> = Vec::new();
    let mut input = i;
    loop
        invariant_except_break
            nodes_at(i.bytes(), T::whole()) == ({
                let (end, nodes) = nodes_at(input.bytes(), T::whole());
                (end, instrs(res@) + nodes)
            }),
        ensures
            nodes_at(i.bytes(), T::whole()) == (input.bytes(), instrs(res@)),
        decreases input.bytes().len(),
    {
        match node(input) {
            Ok((rest, node)) => {
                proof {
                    lemma_node_shorter(input.bytes(), T::whole());
                    let front = instrs(res@);
                    let (end, nodes) = nodes_at(rest.bytes(), T::whole());
                    assert(front + (seq![node@] + nodes) =~= front.push(node@) + nodes);
                    assert(instrs(res@.push(node)) =~= front.push(node@));
                }
                res.push(node);
                input = rest;
            },
            Err(_) => {
                assert(instrs(res@) + Seq::<Instr>::empty() =~= instrs(res@));
                break ;
            },
        }
    }
    let left = match bf_skip_unknown_no_incomplete(input) {
        Ok((left, _)) => left,
        Err(e) => {
            return Err(e);
        },
    };
    if left.at_eof() && left.input_len() == 0 {
        Ok(Block::from(res))
    } else {
        Err(ParseError::Error(input, ErrorKind::Eof))
    }
}

} // verus!
