//! The program tree and the instruction characters it is read from.

use vstd::prelude::*;

verus! {

/// One of the eight instruction characters of the language.
#[derive(Debug, Clone, Copy, PartialEq, Eq)]
pub enum Token {
    LShift,
    RShift,
    Plus,
    Minus,
    Dot,
    Comma,
    LBracket,
    RBracket,
}

/// The instruction that a character stands for; `None` for comment text.
pub open spec fn token_of(ch: char) -> Option<Token> {
    if ch == '<' {
        Some(Token::LShift)
    } else if ch == '>' {
        Some(Token::RShift)
    } else if ch == '+' {
        Some(Token::Plus)
    } else if ch == '-' {
        Some(Token::Minus)
    } else if ch == '.' {
        Some(Token::Dot)
    } else if ch == ',' {
        Some(Token::Comma)
    } else if ch == '[' {
        Some(Token::LBracket)
    } else if ch == ']' {
        Some(Token::RBracket)
    } else {
        None
    }
}

impl Token {
    /// Classifies a character: one of the eight instructions, or comment text.
    pub fn from_char(ch: char) -> (token: Option<Token>)
        ensures
            token == token_of(ch),
    {
        match ch {
            '<' => Some(Token::LShift),
            '>' => Some(Token::RShift),
            '+' => Some(Token::Plus),
            '-' => Some(Token::Minus),
            '.' => Some(Token::Dot),
            ',' => Some(Token::Comma),
            '[' => Some(Token::LBracket),
            ']' => Some(Token::RBracket),
            _ => None,
        }
    }
}

/// The mathematical model of a node of the program tree.
pub enum Instr {
    LShift,
    RShift,
    Inc,
    Dec,
    PutCh,
    GetCh,
    Loop(Seq<Instr>),
}

/// A node of the program tree.
#[derive(Debug, PartialEq)]
pub enum Node {
    LShift,
    RShift,
    Inc,
    Dec,
    PutCh,
    GetCh,
    Loop(Block),
}

/// A program, or the body of a loop: nodes in the order in which they run.
#[derive(Debug, PartialEq)]
pub struct Block(Vec<Node>);

impl View for Node {
    type V = Instr;

    open spec fn view(&self) -> Instr
        decreases self,
    {
        match self {
            Node::LShift => Instr::LShift,
            Node::RShift => Instr::RShift,
            Node::Inc => Instr::Inc,
            Node::Dec => Instr::Dec,
            Node::PutCh => Instr::PutCh,
            Node::GetCh => Instr::GetCh,
            Node::Loop(body) => Instr::Loop(body.view()),
        }
    }
}

impl View for Block {
    type V = Seq<Instr>;

    closed spec fn view(&self) -> Seq<Instr>
        decreases self,
    {
        Seq::new(
            self.0@.len(),
            |i: int|
                if 0 <= i < self.0@.len() {
                    self.0@[i].view()
                } else {
                    arbitrary()
                },
        )
    }
}

/// The models of a sequence of nodes, in the same order.
pub open spec fn instrs(nodes: Seq<Node>) -> Seq<Instr> {
    Seq::new(nodes.len(), |i: int| nodes[i]@)
}

impl Block {
    /// An empty block.
    pub fn new() -> (block: Block)
        ensures
            block@ == Seq::<Instr>::empty(),
    {
        Block(Vec::new())
    }

    /// Appends a node: it runs after those already in the block.
    pub fn push(&mut self, node: Node)
        ensures
            final(self)@ == old(self)@.push(node@),
    {
        self.0.push(node);
    }

    /// The number of nodes in the block, loops counted as one node each.
    pub fn len(&self) -> (len: usize)
        ensures
            len == self@.len(),
    {
        self.0.len()
    }

    /// A block holds no more nodes than a `usize` counts.
    pub proof fn lemma_len_fits(&self)
        ensures
            self@.len() <= usize::MAX,
    {
        assert(self.0.len() == self.0@.len());
    }

    /// The node that runs in place `index`, counted from zero.
    pub fn get(&self, index: usize) -> (node: Option<&Node>)
        ensures
            index < self@.len() ==> node.is_some() && node.unwrap()@ == self@[index as int],
            index >= self@.len() ==> node.is_none(),
    {
        if index < self.0.len() {
            Some(&self.0[index])
        } else {
            None
        }
    }
}

impl From<Vec<Node>> for Block {
    /// The block that runs `nodes` in their order.
    fn from(nodes: Vec<Node>) -> (block: Block)
        ensures
            block@ == instrs(nodes@),
    {
        Block(nodes)
    }
}

impl vstd::std_specs::convert::FromSpecImpl<Vec<Node>> for Block {
    open spec fn obeys_from_spec() -> bool {
        true
    }

    closed spec fn from_spec(nodes: Vec<Node>) -> Block {
        Block(nodes)
    }
}

impl<'a> IntoIterator for &'a Block {
    type Item = &'a Node;

    type IntoIter = core::slice::Iter<'a, Node>;

    /// The nodes in the order in which they run.
    fn into_iter(self) -> (iter: core::slice::Iter<'a, Node>)
        ensures
            instrs(vstd::std_specs::slice::into_iter_elts(iter)) == self@,
    {
        self.0.iter()
    }
}

} // verus!
