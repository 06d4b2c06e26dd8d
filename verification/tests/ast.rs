use brainfuck::ast::{Block, Node, Token};

#[test]
fn from_char_knows_the_eight_instructions() {
    assert_eq!(Token::from_char('<'), Some(Token::LShift));
    assert_eq!(Token::from_char('>'), Some(Token::RShift));
    assert_eq!(Token::from_char('+'), Some(Token::Plus));
    assert_eq!(Token::from_char('-'), Some(Token::Minus));
    assert_eq!(Token::from_char('.'), Some(Token::Dot));
    assert_eq!(Token::from_char(','), Some(Token::Comma));
    assert_eq!(Token::from_char('['), Some(Token::LBracket));
    assert_eq!(Token::from_char(']'), Some(Token::RBracket));
}

#[test]
fn from_char_takes_all_else_for_comment() {
    assert_eq!(Token::from_char('a'), None);
    assert_eq!(Token::from_char(' '), None);
    assert_eq!(Token::from_char('\n'), None);
    assert_eq!(Token::from_char('\0'), None);
    assert_eq!(Token::from_char('('), None);
    assert_eq!(Token::from_char('\u{2c6}'), None);
    for byte in 0..=255u8 {
        let known = b"<>+-.,[]".contains(&byte);
        assert_eq!(Token::from_char(byte as char).is_some(), known);
    }
}

#[test]
fn block_keeps_the_order_of_its_nodes() {
    let mut block = Block::new();
    assert_eq!(block.len(), 0);
    assert_eq!(block.get(0), None);
    block.push(Node::Inc);
    block.push(Node::Loop(Block::new()));
    block.push(Node::Dec);
    assert_eq!(block.len(), 3);
    assert_eq!(block.get(0), Some(&Node::Inc));
    assert_eq!(block.get(1), Some(&Node::Loop(Block::new())));
    assert_eq!(block.get(2), Some(&Node::Dec));
    assert_eq!(block.get(3), None);
    let nodes: Vec<&Node> = (&block).into_iter().collect();
    assert_eq!(nodes, vec![&Node::Inc, &Node::Loop(Block::new()), &Node::Dec]);
    let mut count = 0;
    for node in &block {
        assert_eq!(Some(node), block.get(count));
        count += 1;
    }
    assert_eq!(count, 3);
    assert_eq!(block, Block::from(vec![Node::Inc, Node::Loop(Block::new()), Node::Dec]));
}

#[test]
fn block_from_an_empty_list_is_the_empty_block() {
    assert_eq!(Block::from(Vec::new()), Block::new());
    assert_eq!((&Block::new()).into_iter().next(), None);
}
