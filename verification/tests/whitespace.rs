use groq_syntax::parser::parse;
use groq_syntax::whitespace::trim_each_line;

#[test]
fn trims_both_ends_of_every_line() {
    assert_eq!(trim_each_line(""), "");
    assert_eq!(trim_each_line("   "), "");
    assert_eq!(trim_each_line("a"), "a");
    assert_eq!(trim_each_line("  a  b  "), "a  b");
    assert_eq!(trim_each_line("  a \n\t b\t\n c "), "a\nb\nc");
    assert_eq!(trim_each_line(" \n \n "), "\n\n");
    assert_eq!(trim_each_line("\n"), "\n");
    assert_eq!(trim_each_line("a \n"), "a\n");
}

#[test]
fn keeps_every_line_terminator() {
    assert_eq!(trim_each_line(" a \r\n b \r c \u{2028} d \u{85}\u{b}\u{c}\u{2029} "), "a\r\nb\rc\u{2028}d\u{85}\u{b}\u{c}\u{2029}");
}

#[test]
fn takes_out_every_kind_of_inline_whitespace() {
    assert_eq!(trim_each_line("\u{a0}\u{1680}\u{2000}\u{200a}\u{202f}\u{205f}\u{3000}x\t \u{3000}"), "x");
}

#[test]
fn trimming_twice_changes_nothing_more() {
    for text in ["  a = b  \n  // c  ", " \n \n", "true", "\t!\n x \r\n"] {
        let once = trim_each_line(text);
        assert_eq!(trim_each_line(&once), once);
    }
}

#[test]
fn trimmed_input_parses_to_the_same_nodes() {
    let inputs = [
        "",
        "   ",
        "true",
        "  true  ",
        "  true  \n  false  ",
        "\t a == b \t\n  // a  note  \n !  x ",
        "a \n == \n b",
        "! \n\n x",
        "  //  spaced   out  \t\r\n  true",
        "// only a comment   ",
        "//",
        " // \n // ",
        "a = b // c \n\n\n   d && e   ",
        "something=som false true // single line comment\n",
        "\u{3000}x\u{a0}=\u{2000}y\u{202f}\u{2028}\u{205f}true\u{1680}",
    ];
    for input in inputs {
        let nodes = parse(input).unwrap();
        assert_eq!(parse(&trim_each_line(input)), Ok(nodes), "{:?}", input);
    }
}

#[test]
fn trimmed_input_fails_where_the_input_fails() {
    let inputs = [
        "  true garbage  ",
        " a == ",
        " ! \n ",
        "a ==\n\"b\" ",
        "  ?  ",
        " a b \n c ",
        "true \n 1 ",
    ];
    for input in inputs {
        assert!(parse(input).is_err(), "{:?}", input);
        assert!(parse(&trim_each_line(input)).is_err(), "{:?}", input);
    }
}

#[test]
fn inner_whitespace_of_a_comment_is_kept() {
    assert_eq!(trim_each_line("  // a   b  "), "// a   b");
    assert_eq!(parse("  // a   b  "), parse("// a   b"));
    assert_ne!(parse("// a   b"), parse("// a b"));
}
