use brainfuck::error::Error;
use brainfuck::parser::{parse, CompleteByteSlice, ErrorKind, Needed, ParseError};

fn text_of(err: ParseError<&[u8]>) -> String {
    match Error::from(err) {
        Error::ParseError(text) => text,
        other => panic!("expected a parse error, got {:?}", other),
    }
}

#[test]
fn parse_errors_are_described() {
    assert_eq!(text_of(ParseError::Incomplete(Needed::Size(1))), "incomplete input");
    assert_eq!(text_of(ParseError::Incomplete(Needed::Unknown)), "incomplete input");
    assert_eq!(text_of(ParseError::Error(b"+", ErrorKind::Tag)), "unexpected instruction");
    assert_eq!(text_of(ParseError::Error(b"]", ErrorKind::Alt)), "expected an instruction");
    assert_eq!(
        text_of(ParseError::Error(b"", ErrorKind::ManyTill)),
        "unbalanced loop: expected `]`"
    );
    assert_eq!(text_of(ParseError::Error(b"", ErrorKind::Eof)), "unexpected end of input");
    assert_eq!(
        text_of(ParseError::Error(b"]", ErrorKind::Eof)),
        "unbalanced loop: expected end of input"
    );
}

#[test]
fn a_failed_parse_becomes_a_parse_error() {
    let failed = parse(CompleteByteSlice(b"+[")).unwrap_err();
    match Error::from(failed) {
        Error::ParseError(text) => assert_eq!(text, "unbalanced loop: expected end of input"),
        other => panic!("expected a parse error, got {:?}", other),
    }
    let failed = parse(CompleteByteSlice(b"+]")).unwrap_err();
    assert!(matches!(Error::from(failed), Error::ParseError(_)));
}

#[test]
fn an_io_error_is_kept() {
    let err = std::io::Error::from(std::io::ErrorKind::NotFound);
    match Error::from(err) {
        Error::IOError(err) => assert_eq!(err.kind(), std::io::ErrorKind::NotFound),
        other => panic!("expected an io error, got {:?}", other),
    }
}

#[test]
fn errors_are_written_as_text() {
    let parse = Error::ParseError(String::from("unbalanced loop"));
    assert_eq!(parse.to_string(), "Parse Error: unbalanced loop");
    let io = std::io::Error::new(std::io::ErrorKind::Other, "the pipe broke");
    assert_eq!(Error::IOError(io).to_string(), "IO Error: the pipe broke");
    let eof = Error::from(std::io::Error::from(std::io::ErrorKind::UnexpectedEof));
    assert!(eof.to_string().starts_with("IO Error: "));
    assert!(eof.to_string().len() > "IO Error: ".len());
}
