use brainfuck::ast::{Block, Node};
use brainfuck::context::{Action, Context, Execution};
use brainfuck::error::Error;
use brainfuck::parser::{parse, CompleteByteSlice};
use std::io::Read;

/// Runs `block` on `ctx` to its end, as a host does: output is collected,
/// and input comes from `input`.
fn run_with(ctx: &mut Context, block: &Block, mut input: &[u8]) -> Result<Vec<u8>, Error> {
    let mut exec = Execution::new(block);
    let mut output = Vec::new();
    loop {
        match ctx.run(&mut exec) {
            Action::Next | Action::Enter => {}
            Action::Output(byte) => output.push(byte),
            Action::Input => {
                let mut buffer = [0; 1];
                let read = match input.read(&mut buffer) {
                    Ok(0) => Ok(None),
                    Ok(_) => Ok(Some(buffer[0])),
                    Err(err) => Err(err),
                };
                ctx.input(read)?;
            }
            Action::Halt => return Ok(output),
        }
    }
}

fn run_to_end(ctx: &mut Context, block: &Block) -> Vec<u8> {
    run_with(ctx, block, b"").expect("the program needs no input")
}

fn run_source(ctx: &mut Context, source: &[u8], input: &[u8]) -> Result<Vec<u8>, Error> {
    let block = parse(CompleteByteSlice(source)).expect("the source is a program");
    run_with(ctx, &block, input)
}

#[test]
fn context_test_lshift() {
    let mut ctx = Context::new();
    ctx.run_node(&Node::LShift);
    assert_eq!(ctx, Context::new_with_data(vec![0], vec![0], -1));
}

#[test]
fn context_test_rshift() {
    let mut ctx = Context::new();
    ctx.run_node(&Node::RShift);
    assert_eq!(ctx, Context::new_with_data(Vec::new(), vec![0, 0], 1));
}

#[test]
fn test_inc() {
    let mut ctx = Context::new();
    ctx.run_node(&Node::Inc);
    assert_eq!(ctx, Context::new_with_data(Vec::new(), vec![1], 0));
}

#[test]
fn test_dec() {
    let mut ctx = Context::new();
    ctx.run_node(&Node::Dec);
    assert_eq!(ctx, Context::new_with_data(Vec::new(), vec![-1], 0));
}

#[test]
fn test_putch() {
    let mut ctx = Context::new();
    ctx.run_node(&Node::PutCh);
    assert_eq!(ctx, Context::new());
}

#[test]
fn test_block() {
    let mut ctx = Context::new();
    run_to_end(
        &mut ctx,
        &From::from(vec![
            Node::Inc,
            Node::RShift,
            Node::Inc,
            Node::LShift,
            Node::LShift,
            Node::LShift,
            Node::Dec,
        ]),
    );
    assert_eq!(ctx, Context::new_with_data(vec![0, -1], vec![1, 1], -2));
}

#[test]
fn test_loop() {
    let mut ctx = Context::new();
    ctx.run_node(&Node::Inc);
    ctx.run_node(&Node::Inc);
    run_to_end(
        &mut ctx,
        &From::from(vec![Node::Loop(From::from(vec![
            Node::Dec,
            Node::RShift,
            Node::Inc,
            Node::LShift,
        ]))]),
    );
    assert_eq!(ctx, Context::new_with_data(Vec::new(), vec![0, 2], 0));
}

#[test]
fn test_left_loop() {
    let mut ctx = Context::new();
    ctx.run_node(&Node::LShift);
    ctx.run_node(&Node::Inc);
    ctx.run_node(&Node::Inc);
    run_to_end(
        &mut ctx,
        &From::from(vec![Node::Loop(From::from(vec![
            Node::Dec,
            Node::LShift,
            Node::Inc,
            Node::RShift,
        ]))]),
    );
    assert_eq!(ctx, Context::new_with_data(vec![0, 2], vec![0], -1));
}

#[test]
fn run_node_says_what_the_host_has_to_do() {
    let mut ctx = Context::new();
    assert_eq!(ctx.run_node(&Node::LShift), Action::Next);
    assert_eq!(ctx.run_node(&Node::RShift), Action::Next);
    assert_eq!(ctx.run_node(&Node::Inc), Action::Next);
    assert_eq!(ctx.run_node(&Node::Dec), Action::Next);
    assert_eq!(ctx.run_node(&Node::PutCh), Action::Output(0));
    assert_eq!(ctx.run_node(&Node::GetCh), Action::Input);
    assert_eq!(ctx.run_node(&Node::Loop(Block::new())), Action::Next);
    ctx.run_node(&Node::Inc);
    assert_eq!(ctx.run_node(&Node::Loop(Block::new())), Action::Enter);
    assert_eq!(ctx, Context::new_with_data(vec![0], vec![1], 0));
}

#[test]
fn increment_then_decrement_returns_to_zero() {
    let mut ctx = Context::new();
    ctx.run_node(&Node::Inc);
    ctx.run_node(&Node::Dec);
    assert_eq!(ctx, Context::new());
    assert_eq!(ctx.get(), Some(&0));
}

#[test]
fn increments_wrap_around_after_256() {
    let mut ctx = Context::new();
    ctx.run_node(&Node::Inc);
    ctx.run_node(&Node::Inc);
    ctx.run_node(&Node::Inc);
    for _ in 0..256 {
        ctx.run_node(&Node::Inc);
    }
    assert_eq!(ctx.get(), Some(&3));
}

#[test]
fn cells_wrap_at_eight_bits() {
    let mut ctx = Context::new_with_data(Vec::new(), vec![127], 0);
    ctx.run_node(&Node::Inc);
    assert_eq!(ctx.get(), Some(&-128));
    assert_eq!(ctx.run_node(&Node::PutCh), Action::Output(128));
    ctx.run_node(&Node::Dec);
    assert_eq!(ctx.get(), Some(&127));

    let mut ctx = Context::new_with_data(Vec::new(), vec![-1], 0);
    assert_eq!(ctx.run_node(&Node::PutCh), Action::Output(255));
    ctx.run_node(&Node::Inc);
    assert_eq!(ctx.get(), Some(&0));
    ctx.run_node(&Node::Dec);
    assert_eq!(ctx.run_node(&Node::PutCh), Action::Output(255));
}

#[test]
fn loop_on_a_zero_cell_runs_its_body_zero_times() {
    let mut ctx = Context::new();
    let output = run_source(&mut ctx, b"[+>.<]", b"").unwrap();
    assert_eq!(output, Vec::<u8>::new());
    assert_eq!(ctx, Context::new());
}

#[test]
fn loop_decrements_to_zero() {
    let mut ctx = Context::new();
    run_source(&mut ctx, b"+[-]", b"").unwrap();
    assert_eq!(ctx.get(), Some(&0));
    assert_eq!(ctx, Context::new());
}

#[test]
fn loop_is_tested_again_after_each_pass() {
    let mut ctx = Context::new();
    let output = run_source(&mut ctx, b"+++[.-]", b"").unwrap();
    assert_eq!(output, vec![3, 2, 1]);
    assert_eq!(ctx, Context::new());
}

#[test]
fn nested_loops_run() {
    let mut ctx = Context::new();
    run_source(&mut ctx, b"++[>+++[>++<-]<-]", b"").unwrap();
    assert_eq!(ctx, Context::new_with_data(Vec::new(), vec![0, 0, 12], 0));
}

#[test]
fn tape_grows_to_the_left() {
    let mut ctx = Context::new();
    let output = run_source(&mut ctx, b"<<<+", b"").unwrap();
    assert_eq!(output, Vec::<u8>::new());
    assert_eq!(ctx, Context::new_with_data(vec![0, 0, 1], vec![0], -3));
    assert_eq!(ctx.index(), -3);
    assert_eq!(ctx.get(), Some(&1));
    ctx.run_node(&Node::RShift);
    ctx.run_node(&Node::RShift);
    ctx.run_node(&Node::RShift);
    assert_eq!(ctx.index(), 0);
    assert_eq!(ctx.get(), Some(&0));
}

#[test]
fn tape_grows_only_where_no_cell_is() {
    let mut ctx = Context::new_with_data(vec![5, 6], vec![7], 0);
    ctx.run_node(&Node::LShift);
    assert_eq!(ctx, Context::new_with_data(vec![5, 6], vec![7], -1));
    ctx.run_node(&Node::LShift);
    ctx.run_node(&Node::LShift);
    assert_eq!(ctx, Context::new_with_data(vec![5, 6, 0], vec![7], -3));
    ctx.run_node(&Node::RShift);
    assert_eq!(ctx, Context::new_with_data(vec![5, 6, 0], vec![7], -2));
    assert_eq!(ctx.get(), Some(&6));
}

#[test]
fn multiplication_by_a_loop_gives_one_byte() {
    let mut ctx = Context::new();
    let output = run_source(&mut ctx, b"++++++++[>++++++++<-]>.", b"").unwrap();
    assert_eq!(output, vec![64]);
    assert_eq!(output, b"@");
}

#[test]
fn input_at_the_end_of_the_stream_is_a_failure() {
    let mut ctx = Context::new();
    let result = run_source(&mut ctx, b",", b"");
    match result {
        Err(Error::IOError(err)) => assert_eq!(err.kind(), std::io::ErrorKind::UnexpectedEof),
        other => panic!("expected a failure of input, got {:?}", other),
    }
    assert_eq!(ctx, Context::new());
}

#[test]
fn input_takes_what_the_host_read() {
    let mut ctx = Context::new();
    assert!(ctx.input(Ok(Some(65))).is_ok());
    assert_eq!(ctx.get(), Some(&65));
    assert!(ctx.input(Ok(Some(200))).is_ok());
    assert_eq!(ctx.get(), Some(&-56));
    assert!(matches!(ctx.input(Ok(None)), Err(Error::IOError(_))));
    assert_eq!(ctx.get(), Some(&-56));
    let broken = std::io::Error::from(std::io::ErrorKind::BrokenPipe);
    match ctx.input(Err(broken)) {
        Err(Error::IOError(err)) => assert_eq!(err.kind(), std::io::ErrorKind::BrokenPipe),
        other => panic!("expected a failure of input, got {:?}", other),
    }
    assert_eq!(ctx, Context::new_with_data(Vec::new(), vec![-56], 0));
}

#[test]
fn input_is_read_byte_by_byte() {
    let mut ctx = Context::new();
    let output = run_source(&mut ctx, b",.>,.>,.", b"abc").unwrap();
    assert_eq!(output, b"abc");
    assert_eq!(ctx, Context::new_with_data(Vec::new(), vec![97, 98, 99], 2));
    let mut ctx = Context::new();
    assert!(matches!(run_source(&mut ctx, b",>,>,", b"ab"), Err(Error::IOError(_))));
    assert_eq!(ctx, Context::new_with_data(Vec::new(), vec![97, 98, 0], 2));
}

#[test]
fn output_of_a_fresh_cell_is_zero() {
    let mut ctx = Context::new();
    assert_eq!(run_source(&mut ctx, b".>.<<.", b"").unwrap(), vec![0, 0, 0]);
}

#[test]
fn hello_world_is_written() {
    let source: &[u8] = b"++++++++[>++++[>++>+++>+++>+<<<<-]>+>+>->>+[<]<-]>>.>---.+++++++..+++.\
        >>.<-.<.+++.------.--------.>>+.>++.";
    let mut ctx = Context::new();
    assert_eq!(run_source(&mut ctx, source, b"").unwrap(), b"Hello World!\n");
}

#[test]
fn cells_beyond_the_buffers_read_as_zero_and_take_no_write() {
    let mut ctx = Context::new_with_data(Vec::new(), vec![1], 3);
    assert_eq!(ctx.get(), None);
    assert!(ctx.get_mut().is_none());
    assert!(!ctx.loop_cond());
    assert_eq!(ctx.run_node(&Node::PutCh), Action::Output(0));
    ctx.run_node(&Node::Inc);
    assert_eq!(ctx, Context::new_with_data(Vec::new(), vec![1], 3));
    ctx.run_node(&Node::RShift);
    assert_eq!(ctx, Context::new_with_data(Vec::new(), vec![1, 0, 0, 0, 0], 4));
}

#[test]
fn get_mut_writes_the_cell_under_the_cursor() {
    let mut ctx = Context::new();
    ctx.run_node(&Node::LShift);
    *ctx.get_mut().unwrap() = 9;
    assert_eq!(ctx, Context::new_with_data(vec![9], vec![0], -1));
    assert!(ctx.loop_cond());
    ctx.run_node(&Node::RShift);
    assert!(!ctx.loop_cond());
}

#[test]
fn a_walk_ends_with_halt_and_stays_there() {
    let block = Block::new();
    let mut ctx = Context::new();
    let mut exec = Execution::new(&block);
    assert!(!exec.is_done());
    assert_eq!(ctx.run(&mut exec), Action::Halt);
    assert!(exec.is_done());
    assert_eq!(ctx.run(&mut exec), Action::Halt);

    let block: Block = From::from(vec![Node::Inc, Node::Loop(From::from(vec![Node::Dec]))]);
    let mut exec = Execution::new(&block);
    assert_eq!(ctx.run(&mut exec), Action::Next);
    assert_eq!(ctx.run(&mut exec), Action::Enter);
    assert_eq!(ctx.run(&mut exec), Action::Next);
    assert_eq!(ctx.get(), Some(&0));
    assert_eq!(ctx.run(&mut exec), Action::Next);
    assert_eq!(ctx.run(&mut exec), Action::Next);
    assert!(!exec.is_done());
    assert_eq!(ctx.run(&mut exec), Action::Halt);
    assert!(exec.is_done());
}
