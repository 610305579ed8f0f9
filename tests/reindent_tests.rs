use reindent::{detect_indentation, parse_indentation, reindent, Indentation, ParseIndentationError};

#[test]
fn partial_level_is_kept_as_content() {
    let out = reindent("      x", Some(Indentation::Spaces(4)), Indentation::Tab);
    assert_eq!(out, "\t  x\n");
}

#[test]
fn detection_uses_first_indented_line() {
    assert_eq!(detect_indentation("a\n    b\n\tc"), Some(Indentation::Spaces(4)));
}

#[test]
fn detection_of_tab() {
    assert_eq!(detect_indentation("x\n\n\ty\n  z"), Some(Indentation::Tab));
}

#[test]
fn detection_finds_nothing_in_flat_text() {
    assert_eq!(detect_indentation("a\nb\n"), None);
    assert_eq!(detect_indentation(""), None);
}

#[test]
fn zero_width_is_rejected() {
    assert_eq!(parse_indentation("0"), Err(ParseIndentationError::ZeroWidth));
    assert_eq!(parse_indentation("+0"), Err(ParseIndentationError::ZeroWidth));
    assert_eq!(
        ParseIndentationError::ZeroWidth.message(),
        "indentation width must be at least one space"
    );
}

#[test]
fn tab_words_parse() {
    assert_eq!(parse_indentation("tab"), Ok(Indentation::Tab));
    assert_eq!(parse_indentation("tabs"), Ok(Indentation::Tab));
}

#[test]
fn widths_parse() {
    assert_eq!(parse_indentation("4"), Ok(Indentation::Spaces(4)));
    assert_eq!(parse_indentation("12"), Ok(Indentation::Spaces(12)));
    assert_eq!(parse_indentation("+3"), Ok(Indentation::Spaces(3)));
    assert_eq!(parse_indentation("007"), Ok(Indentation::Spaces(7)));
}

#[test]
fn bad_widths_are_rejected() {
    for s in ["", "-1", "abc", "Tab", " 4", "4 ", "+", "99999999999999999999999999"] {
        match parse_indentation(s) {
            Err(ParseIndentationError::InvalidWidth(reason)) => assert!(!reason.is_empty()),
            other => panic!("{:?} gave {:?}", s, other),
        }
    }
}

#[test]
fn invalid_width_message_is_the_reason() {
    match parse_indentation("x") {
        Err(e) => assert_eq!(e.message(), "invalid digit found in string"),
        Ok(style) => panic!("parsed {:?}", style),
    }
}

#[test]
fn same_style_normalises_only_terminators() {
    let text = "fn f() {\n\tlet a = 1;\n\t\tb\n}\n";
    assert_eq!(reindent(text, Some(Indentation::Tab), Indentation::Tab), text);
    let crlf = "\ta\r\nb";
    assert_eq!(reindent(crlf, Some(Indentation::Tab), Indentation::Tab), "\ta\nb\n");
}

#[test]
fn round_trip_restores_text() {
    let text = "a\n\tb\n\t\tc\n\td\n";
    let spaces = reindent(text, Some(Indentation::Tab), Indentation::Spaces(2));
    assert_eq!(spaces, "a\n  b\n    c\n  d\n");
    let back = reindent(&spaces, Some(Indentation::Spaces(2)), Indentation::Tab);
    assert_eq!(back, text);
}

#[test]
fn depth_is_kept_per_line() {
    let out = reindent("\t\tx\n\ty\nz", None, Indentation::Spaces(3));
    assert_eq!(out, "      x\n   y\nz\n");
}

#[test]
fn unindented_text_passes_through() {
    let text = "a\r\nb";
    assert_eq!(reindent(text, None, Indentation::Tab), text);
    assert_eq!(reindent(text, Some(Indentation::Spaces(2)), Indentation::Tab), "a\nb\n");
    assert_eq!(reindent("", None, Indentation::Tab), "");
}

#[test]
fn mismatched_indentation_is_left_alone() {
    let out = reindent("    a\n\tb\n  c\n", Some(Indentation::Spaces(4)), Indentation::Tab);
    assert_eq!(out, "\ta\n\tb\n  c\n");
}

#[test]
fn detected_spaces_become_tabs() {
    let out = reindent("x\n  y\n    z\n   w\n", None, Indentation::Tab);
    assert_eq!(out, "x\n\ty\n\t\tz\n\t w\n");
}

#[test]
fn strip_from_needs_a_whole_unit() {
    assert_eq!(Indentation::Spaces(4).strip_from("   x"), None);
    assert_eq!(Indentation::Spaces(4).strip_from("     x"), Some(" x"));
    assert_eq!(Indentation::Tab.strip_from("\t\tx"), Some("\tx"));
    assert_eq!(Indentation::Tab.strip_from(" \tx"), None);
}

#[test]
fn strip_all_from_counts_levels() {
    assert_eq!(Indentation::Tab.strip_all_from("\t\t\tx\t"), ("x\t", 3));
    assert_eq!(Indentation::Spaces(2).strip_all_from("     y"), (" y", 2));
    assert_eq!(Indentation::Spaces(2).strip_all_from(""), ("", 0));
}

#[test]
fn from_line_reads_leading_blanks() {
    assert_eq!(Indentation::from_line("\t  x"), Some(Indentation::Tab));
    assert_eq!(Indentation::from_line("   \tx"), Some(Indentation::Spaces(3)));
    assert_eq!(Indentation::from_line("x  "), None);
    assert_eq!(Indentation::from_line(""), None);
}

#[test]
fn append_to_string_adds_one_unit() {
    let mut s = String::from("a");
    Indentation::Spaces(3).append_to_string(&mut s);
    Indentation::Tab.append_to_string(&mut s);
    assert_eq!(s, "a   \t");
}

#[test]
fn non_ascii_content_is_kept() {
    let out = reindent("é\n  ü ö\n", None, Indentation::Tab);
    assert_eq!(out, "é\n\tü ö\n");
}

#[test]
fn carriage_return_without_newline_stays_in_line() {
    let out = reindent("  a\r", Some(Indentation::Spaces(2)), Indentation::Tab);
    assert_eq!(out, "\ta\r\n");
}
