use tpmu::field::{Command, Field};
use tpmu::header::{Header, Parser, Position};

#[test]
fn test_read_ident() {
    let mut parser = Parser::new("hello world".into());
    assert_eq!(parser.read_ident(), "hello");
}

#[test]
fn test_parse() {
    let test_header_string = " PID  PPID      TIME COMM";
    let mut parser = Parser::new(test_header_string.into());
    let got = parser.parse();

    let expected: Vec<Header> = vec![
        Header::new(Field::Pid, Position::new(0, 4)),
        Header::new(Field::Ppid, Position::new(4, 10)),
        Header::new(Field::Time, Position::new(10, 20)),
        Header::new(Field::Comm(Command::FullPath), Position::new(20, 25)),
    ];

    assert_eq!(got, expected);
    assert_eq!(
        test_header_string[got[0].position.start_col..got[0].position.end_col].to_string(),
        " PID"
    );
    assert_eq!(
        test_header_string[got[1].position.start_col..got[1].position.end_col].to_string(),
        "  PPID"
    );
    assert_eq!(
        test_header_string[got[2].position.start_col..got[2].position.end_col].to_string(),
        "      TIME"
    );
    assert_eq!(
        test_header_string[got[3].position.start_col..got[3].position.end_col].to_string(),
        " COMM"
    );
}

#[test]
fn test_parse_any_position() {
    let test_header_string = "COMM PID   PPID";
    let mut parser = Parser::new(test_header_string.into());
    let got = parser.parse();
    let expected: Vec<Header> = vec![
        Header::new(Field::Comm(Command::FullPath), Position::new(0, 4)),
        Header::new(Field::Pid, Position::new(4, 8)),
        Header::new(Field::Ppid, Position::new(8, 15)),
    ];

    assert_eq!(got, expected);
    assert_eq!(
        test_header_string[got[0].position.start_col..got[0].position.end_col].to_string(),
        "COMM"
    );
    assert_eq!(
        test_header_string[got[1].position.start_col..got[1].position.end_col].to_string(),
        " PID"
    );
    assert_eq!(
        test_header_string[got[2].position.start_col..got[2].position.end_col].to_string(),
        "   PPID"
    );
}

#[test]
fn scan_is_case_insensitive() {
    let mut parser = Parser::new("pid Time".into());
    let got = parser.parse();
    let expected: Vec<Header> = vec![
        Header::new(Field::Pid, Position::new(0, 3)),
        Header::new(Field::Time, Position::new(3, 8)),
    ];
    assert_eq!(got, expected);
}

#[test]
fn unrecognized_labels_keep_boundaries() {
    // the unknown column yields no entry, but the next field's region must
    // still start where the unknown label ended
    let mut parser = Parser::new(" PID   FOO  TIME".into());
    let got = parser.parse();
    let expected: Vec<Header> = vec![
        Header::new(Field::Pid, Position::new(0, 4)),
        Header::new(Field::Time, Position::new(10, 16)),
    ];
    assert_eq!(got, expected);
}

#[test]
fn scan_of_blank_line_is_empty() {
    let mut parser = Parser::new("   ".into());
    assert_eq!(parser.parse(), Vec::new());
}

#[test]
fn trailing_whitespace_is_not_consumed_into_entries() {
    let mut parser = Parser::new("UID  \t ".into());
    let got = parser.parse();
    let expected: Vec<Header> = vec![Header::new(Field::Uid, Position::new(0, 3))];
    assert_eq!(got, expected);
}
