use khi::parse_expression_str;
use khi::write_tex;
use khi::PreprocessorError;

fn transcode(source: &str) -> Result<String, PreprocessorError> {
    let document = parse_expression_str(source).unwrap();
    write_tex(&document)
}

fn assert_tex(source: &str, expect: &str) {
    assert_eq!(transcode(source).unwrap(), expect);
}

#[test]
fn test_write_text() {
    assert_tex("Hello world!", "{Hello world!}");
    assert_tex("  Hello   world!  ", "{Hello world!}");
}

#[test]
fn test_write_unicode_whitespace() {
    // Any Unicode white-space character in a text run collapses to one
    // space on emission.
    assert_tex("a\u{A0}b", "{a b}");
    assert_tex("a\u{2009}\u{3000}b", "{a b}");
}

#[test]
fn test_write_reserved_characters() {
    // The three output-language plain-text characters are escaped.
    assert_tex("a$b", "{a\\$b}");
    assert_tex("a%b", "{a\\%b}");
    assert_tex("a&b", "{a\\&b}");
}

#[test]
fn test_write_nil() {
    assert_tex("~", "{}");
}

#[test]
fn test_write_table() {
    assert_tex("[a|b;c|d]", "{a}&{b}\\\\{c}&{d}\\\\");
    assert_tex("[a]", "{a}\\\\");
}

#[test]
fn test_write_command() {
    assert_tex("<b>:x", "\\b{x}");
    assert_tex("<frac>:1:2", "\\frac{1}{2}");
    assert_tex("<b>:~", "\\b{}");
}

#[test]
fn test_write_bare_command_spacing() {
    // A bare command followed by text gets an empty group so the engine
    // does not swallow the following space.
    assert_tex("{<sep>} x", "\\sep{} x");
}

#[test]
fn test_write_optional_argument() {
    assert_tex("<cmd'>:~:y", "\\cmd[]{y}");
    assert_tex("<cmd'>:opt:y", "\\cmd[opt]{y}");
}

#[test]
fn test_write_math_shorthand() {
    assert_tex("<$>:x", "${x}$");
    // Arguments past the first are ignored.
    assert_tex("<$>:x:y", "${x}$");
}

#[test]
fn test_write_paragraph_and_line_shorthands() {
    assert_tex("<p>", "{\\par}");
    assert_tex("<n>", "\\\\");
}

#[test]
fn test_write_raw_directive() {
    // The raw passthrough bypasses all escaping.
    assert_tex("<raw!>:a$b", "a$b");
}

#[test]
fn test_write_definition_directive() {
    assert_tex("<def!>:<cmd>:1:{x}", "\\newcommand\\cmd[{1}]{{x}}");
}

#[test]
fn test_write_mirrors_source_lines() {
    // The second value begins on source line 2, so the output breaks to
    // line 2 exactly there.
    assert_tex("{a}\n{b}", "a \nb");
    // A value on line 3 is reached through a commented newline pad.
    assert_tex("{a}\n\n{b}", "a \n%\nb");
}

#[test]
fn test_write_is_deterministic() {
    let document = parse_expression_str("<b>:x y {z}").unwrap();
    let first = write_tex(&document).unwrap();
    let second = write_tex(&document).unwrap();
    assert_eq!(first, second);
}

#[test]
fn test_write_rejects_dictionary() {
    let document = parse_expression_str("{k: v}").unwrap();
    assert!(matches!(
        write_tex(&document),
        Err(PreprocessorError::IllegalDictionary(_))
    ));
    // A dictionary deeper in the tree also fails.
    let document = parse_expression_str("a <b>:{k: v} c").unwrap();
    assert!(matches!(
        write_tex(&document),
        Err(PreprocessorError::IllegalDictionary(_))
    ));
}

#[test]
fn test_write_rejects_zero_column_table() {
    let document = parse_expression_str("[]").unwrap();
    assert!(matches!(
        write_tex(&document),
        Err(PreprocessorError::ZeroTable(_))
    ));
}

#[test]
fn test_write_rejects_table_as_optional_argument() {
    let document = parse_expression_str("<cmd'>:[a]:y").unwrap();
    assert!(matches!(
        write_tex(&document),
        Err(PreprocessorError::IllegalTable(_))
    ));
}

#[test]
fn test_write_missing_optional_argument() {
    let document = parse_expression_str("<cmd'>").unwrap();
    assert!(matches!(
        write_tex(&document),
        Err(PreprocessorError::MissingOptionalArgument(_))
    ));
}

#[test]
fn test_write_macro_errors() {
    let document = parse_expression_str("<$>").unwrap();
    assert!(matches!(
        write_tex(&document),
        Err(PreprocessorError::MacroError(_, _))
    ));
    let document = parse_expression_str("<nope!>").unwrap();
    assert!(matches!(
        write_tex(&document),
        Err(PreprocessorError::MacroError(_, _))
    ));
    let document = parse_expression_str("<def!>:a").unwrap();
    assert!(matches!(
        write_tex(&document),
        Err(PreprocessorError::MacroError(_, _))
    ));
    let document = parse_expression_str("<raw!>:a:b").unwrap();
    assert!(matches!(
        write_tex(&document),
        Err(PreprocessorError::MacroError(_, _))
    ));
}
