use libpgfmt::lexical::{collapse_whitespace, ends_in_line_comment, layout_is_safe, restore_literals, scan, Span};

fn end_of(text: &str) -> Option<(Span, usize)> {
    let chars: Vec<char> = text.chars().collect();
    scan(&chars, 0)
}

#[test]
fn quoted_identifiers() {
    assert_eq!(end_of("\"a  b\" x"), Some((Span::Identifier, 6)));
    assert_eq!(end_of("\"a\"\"b\" x"), Some((Span::Identifier, 6)));
}

#[test]
fn collapse_keeps_meaningful_newlines() {
    assert_eq!(collapse_whitespace("  a   b  "), "a b");
    assert_eq!(collapse_whitespace("f(a, -- why\n  b)"), "f(a, -- why\nb)");
    assert_eq!(collapse_whitespace("'foo'\n   'bar'"), "'foo'\n'bar'");
    assert_eq!(collapse_whitespace("'a  b' \"c  d\""), "'a  b' \"c  d\"");
}

#[test]
fn restores_reindented_literals() {
    let source = "SELECT 'a\n b', 'x  y', 'same' FROM t";
    let output = "SELECT 'a\n     b',\n       'x  y',\n       'same'\n  FROM t";
    assert_eq!(
        restore_literals(source, output),
        "SELECT 'a\n b',\n       'x  y',\n       'same'\n  FROM t"
    );
    // A literal changed beyond whitespace is left alone.
    assert_eq!(restore_literals("SELECT 'a'", "SELECT 'b'"), "SELECT 'b'");
    // Dollar-quoted bodies are not touched.
    assert_eq!(restore_literals("$$a\nb$$", "$$a\n b$$"), "$$a\n b$$");
}

#[test]
fn layout_safety() {
    assert!(layout_is_safe("\n  SELECT 'a' || $1;\n"));
    assert!(!layout_is_safe("x := 'line one\n  line two';"));
    assert!(!layout_is_safe("EXECUTE $q$\n SELECT 1 $q$;"));
    assert!(!layout_is_safe(" SELECT '(1,0')' + 1 "));
}

#[test]
fn line_comment_at_end() {
    assert!(ends_in_line_comment("SELECT 1 -- why\n"));
    assert!(!ends_in_line_comment("SELECT '--' AS x"));
    assert!(!ends_in_line_comment("-- a\nSELECT 1"));
}

#[test]
fn plain_and_doubled_quotes() {
    assert_eq!(end_of("'ab' x"), Some((Span::Literal, 4)));
    assert_eq!(end_of("'a''b' x"), Some((Span::Literal, 6)));
}

#[test]
fn backslash_escapes_only_in_escape_strings() {
    assert_eq!(end_of(r"E'a\'b' x"), Some((Span::Literal, 7)));
    assert_eq!(end_of(r"'a\' x"), Some((Span::Literal, 4)));
}

#[test]
fn dollar_quotes() {
    assert_eq!(end_of("$$a b$$ x"), Some((Span::Literal, 7)));
    assert_eq!(end_of("$tag$a$$b$tag$ x"), Some((Span::Literal, 14)));
    assert_eq!(end_of("$1 + 2"), None);
}

#[test]
fn no_literal_starts_inside_an_identifier() {
    // `$` and `E` are both legal inside an unquoted identifier.
    for (text, i) in [
        ("foo$tag$ + 1\nFROM bar$tag$", 3),
        ("foo$$tag$ + 1\nFROM bar$$tag$", 4),
        (r"ae'a\'b' + 1", 1),
    ] {
        let chars: Vec<char> = text.chars().collect();
        assert_eq!(scan(&chars, i), None, "{text} at {i}");
    }
}

#[test]
fn comments() {
    assert_eq!(end_of("-- hi\nx"), Some((Span::LineComment, 5)));
    assert_eq!(end_of("/* a\nb */x"), Some((Span::BlockComment, 9)));
}
