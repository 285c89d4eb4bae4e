use khi::parse_dictionary_str;
use khi::parse_expression_str;
use khi::parse_table_str;
use khi::ParseErrorKind;

fn expression_error_kind(source: &str) -> ParseErrorKind {
    parse_expression_str(source).unwrap_err().kind
}

#[test]
fn test_illegal_escape_kind() {
    assert_eq!(expression_error_kind("a`"), ParseErrorKind::IllegalEscape);
    assert_eq!(expression_error_kind("`["), ParseErrorKind::IllegalEscape);
}

#[test]
fn test_illegal_hash_kind() {
    assert_eq!(expression_error_kind("#{"), ParseErrorKind::IllegalHash);
    assert_eq!(expression_error_kind("#~"), ParseErrorKind::IllegalHash);
}

#[test]
fn test_unterminated_kind() {
    assert_eq!(
        expression_error_kind("\\abc"),
        ParseErrorKind::UnterminatedConstruct
    );
    assert_eq!(
        expression_error_kind("\"abc"),
        ParseErrorKind::UnterminatedConstruct
    );
    assert_eq!(
        expression_error_kind("{abc"),
        ParseErrorKind::UnterminatedConstruct
    );
    assert_eq!(
        expression_error_kind("<#>abc"),
        ParseErrorKind::UnterminatedConstruct
    );
}

#[test]
fn test_verbatim_line_break_kind() {
    assert_eq!(
        expression_error_kind("\\a\nb\\"),
        ParseErrorKind::LineBreakInVerbatim
    );
}

#[test]
fn test_blank_cell_kind() {
    assert_eq!(
        parse_table_str("1| |0").unwrap_err().kind,
        ParseErrorKind::BlankTableCell
    );
}

#[test]
fn test_ragged_table_kind() {
    assert_eq!(
        parse_table_str("|a|b| |c|d|e|").unwrap_err().kind,
        ParseErrorKind::RaggedTable
    );
    assert_eq!(
        parse_table_str("> a | b > c").unwrap_err().kind,
        ParseErrorKind::RaggedTable
    );
}

#[test]
fn test_unexpected_token_kind() {
    assert_eq!(expression_error_kind("}"), ParseErrorKind::UnexpectedToken);
    assert_eq!(expression_error_kind("a : b"), ParseErrorKind::UnexpectedToken);
}

#[test]
fn test_unknown_block_flag_kind() {
    assert_eq!(
        expression_error_kind("<# z>a<#>"),
        ParseErrorKind::UnknownBlockFlag
    );
}

#[test]
fn test_duplicate_key_kind() {
    assert_eq!(
        parse_dictionary_str("k: a; k: b").unwrap_err().kind,
        ParseErrorKind::DuplicateKey
    );
    assert!(parse_expression_str("{k: a; k: b}").is_err());
}

#[test]
fn test_error_positions() {
    // The escape error points at the offending character.
    let e = parse_expression_str("ab\ncd`").unwrap_err();
    assert_eq!(e.position.line, 2);
}
