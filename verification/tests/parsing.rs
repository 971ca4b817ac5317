use pcbplot::DrillFile;
use pcbplot::ParseError;
use pcbplot::Parser;

fn is_digit(c: char) -> bool {
    c.is_ascii_digit()
}

#[test]
fn parser_cursor_basics() {
    let mut p = Parser::new("ab");
    assert!(!p.is_eof());
    assert_eq!(p.peek(), 'a');
    assert_eq!(p.next(), 'a');
    assert_eq!(p.next(), 'b');
    assert!(p.is_eof());
}

#[test]
fn take_while_stops_at_first_mismatch_or_eof() {
    let mut p = Parser::new("123x");
    p.take_while(is_digit);
    assert_eq!(p.idx, 3);
    let mut q = Parser::new("123");
    q.take_while(is_digit);
    assert_eq!(q.idx, 3);
    assert!(q.is_eof());
}

#[test]
fn expect_matches_and_reports_positions() {
    let mut p = Parser::new("M48rest");
    assert!(p.expect("M48").is_ok());
    assert_eq!(p.idx, 3);

    let mut q = Parser::new("M4");
    assert_eq!(q.expect("M48"), Err(ParseError::UnexpectedEof { at: 2 }));

    let mut r = Parser::new("MX8");
    assert_eq!(r.expect("M48"), Err(ParseError::CharacterMismatch { at: 1 }));
    assert_eq!(r.idx, 2, "the mismatching character is consumed");
}

#[test]
fn parse_int_values_and_errors() {
    let mut p = Parser::new("42x");
    assert_eq!(p.parse_int(), Ok(42));
    assert_eq!(p.idx, 2);

    let mut q = Parser::new("x");
    assert_eq!(q.parse_int(), Err(ParseError::InvalidNumber { at: 0 }));

    let mut r = Parser::new("99999999999");
    assert_eq!(r.parse_int(), Err(ParseError::NumberOutOfRange { at: 0 }));

    let mut s = Parser::new("0007");
    assert_eq!(s.parse_int(), Ok(7));
}

#[test]
fn parse_float_yields_millionths() {
    let cases: [(&str, i64); 6] = [
        ("1.25", 1250000),
        ("-0.5", -500000),
        (".5", 500000),
        ("3.", 3000000),
        ("2", 2000000),
        ("0.1234567", 123456),
    ];
    for (text, want) in cases {
        let mut p = Parser::new(text);
        assert_eq!(p.parse_float(), Ok(want), "input {text}");
    }
}

#[test]
fn parse_float_rejects_malformed_runs() {
    for text in ["-", "1.2.3", "1-2", "", "..", "-."] {
        let mut p = Parser::new(text);
        assert_eq!(
            p.parse_float(),
            Err(ParseError::InvalidNumber { at: 0 }),
            "input {text:?}"
        );
    }
}

#[test]
fn parse_float_rejects_out_of_range_values() {
    let mut p = Parser::new("99999999999.0");
    assert_eq!(p.parse_float(), Err(ParseError::NumberOutOfRange { at: 0 }));
}

#[test]
fn next_line_consumes_through_newline() {
    let mut p = Parser::new("abc\ndef");
    p.next_line();
    assert_eq!(p.idx, 4);
    p.next_line();
    assert!(p.is_eof());
}

#[test]
fn drill_single_tool_single_hit() {
    let drill = DrillFile::parse("M48\nT1C0.5\nT1\nX1.0Y2.0\n").unwrap();
    assert_eq!(drill.tools, vec![1]);
    assert_eq!(drill.holes.len(), 1);
    let ops = &drill.holes[&1];
    assert_eq!(ops.diameter, 500000);
    assert_eq!(ops.holes.len(), 1);
    assert_eq!((ops.holes[0].x, ops.holes[0].y), (1000000, 2000000));
}

#[test]
fn drill_hit_without_tool_fails() {
    let err = DrillFile::parse("M48\nX1.0Y2.0\n").unwrap_err();
    assert!(matches!(err, ParseError::NoCurrentTool { .. }), "{err:?}");
}

#[test]
fn drill_hit_with_undefined_selection_fails() {
    let err = DrillFile::parse("M48\nT7\nX1.0Y2.0\n").unwrap_err();
    assert!(matches!(err, ParseError::NoCurrentTool { .. }), "{err:?}");
}

#[test]
fn drill_missing_header_fails() {
    let err = DrillFile::parse("T1C0.5\n").unwrap_err();
    assert_eq!(err, ParseError::CharacterMismatch { at: 0 });
}

#[test]
fn drill_tolerates_missing_final_newline() {
    let drill = DrillFile::parse("M48\nT1C0.5\nT1\nX1.0Y2.0").unwrap();
    assert_eq!(drill.holes[&1].holes.len(), 1);
}

#[test]
fn drill_ignores_unknown_lines() {
    let drill = DrillFile::parse("M48\nINCH,TZ\nT1C0.5\nT1\nX1.0Y2.0\nM30\n").unwrap();
    assert_eq!(drill.holes[&1].holes.len(), 1);
}

#[test]
fn drill_tool_redefinition_replaces_the_diameter() {
    let drill = DrillFile::parse("M48\nT1C0.5\nT1C0.7\nT1\nX1.0Y1.0\n").unwrap();
    assert_eq!(drill.tools, vec![1]);
    assert_eq!(drill.holes[&1].diameter, 700000);
    assert_eq!(drill.holes[&1].holes.len(), 1);
}

#[test]
fn drill_two_tools_collect_their_own_hits() {
    let text = "M48\nT1C0.5\nT2C1.0\nT1\nX1.0Y1.0\nT2\nX2.0Y2.0\nX3.0Y3.0\n";
    let drill = DrillFile::parse(text).unwrap();
    assert_eq!(drill.tools, vec![1, 2]);
    assert_eq!(drill.holes[&1].holes.len(), 1);
    assert_eq!(drill.holes[&2].holes.len(), 2);
    assert_eq!((drill.holes[&2].holes[1].x, drill.holes[&2].holes[1].y), (3000000, 3000000));
}
