//! Scalar styles and rendering.

use loop_engine::engine::yaml::scalar::{double_quote, render_scalar, scalar_style, ScalarStyle};

#[test]
fn plain_for_simple_value() {
    assert_eq!(scalar_style("hello"), ScalarStyle::Plain);
}

#[test]
fn plain_for_yaml_1_2_boolean_keywords_no_longer_reserved() {
    for v in ["yes", "no", "on", "off", "Yes", "No", "On", "Off"] {
        assert_eq!(scalar_style(v), ScalarStyle::Plain, "{v} should be plain");
    }
}

#[test]
fn double_quoted_for_yaml_1_2_keywords() {
    for v in ["true", "false", "null", "True", "False", "Null", "~"] {
        assert_eq!(
            scalar_style(v),
            ScalarStyle::DoubleQuoted,
            "{v} should be quoted"
        );
    }
}

#[test]
fn double_quoted_for_numeric_looking() {
    for v in [
        "42", "-1", "3.14", "1e10", "0x10", "0o7", "+42", ".inf", ".nan", "-.INF",
    ] {
        assert_eq!(
            scalar_style(v),
            ScalarStyle::DoubleQuoted,
            "{v} should be quoted"
        );
    }
}

#[test]
fn plain_with_embedded_quotes() {
    assert_eq!(scalar_style("she said \"hi\""), ScalarStyle::Plain);
    assert_eq!(scalar_style("it's fine"), ScalarStyle::Plain);
}

#[test]
fn plain_with_question_not_followed_by_space() {
    assert_eq!(scalar_style("?key"), ScalarStyle::Plain);
}

#[test]
fn quoted_when_question_followed_by_space() {
    assert_eq!(scalar_style("? key"), ScalarStyle::DoubleQuoted);
}

#[test]
fn quoted_for_disallowed_first_chars() {
    for c in [
        '-', ':', ',', '[', ']', '{', '}', '#', '&', '*', '!', '|', '>',
    ] {
        let s = format!("{c}foo");
        assert_eq!(
            scalar_style(&s),
            ScalarStyle::DoubleQuoted,
            "{s:?} should be quoted"
        );
    }
}

#[test]
fn quoted_for_colon_space_in_middle() {
    assert_eq!(scalar_style("key: value"), ScalarStyle::DoubleQuoted);
}

#[test]
fn block_for_multiline_no_trailing_newline() {
    let s = scalar_style("line1\nline2");
    assert_eq!(s, ScalarStyle::LiteralBlock { chomp_strip: true });
}

#[test]
fn block_for_multiline_with_trailing_newline() {
    let s = scalar_style("line1\nline2\n");
    assert_eq!(s, ScalarStyle::LiteralBlock { chomp_strip: false });
}

#[test]
fn block_falls_back_to_quoted_for_control_chars() {
    let s = scalar_style("line1\nline2\x07");
    assert_eq!(s, ScalarStyle::DoubleQuoted);
}

#[test]
fn block_render_basic() {
    let out = render_scalar("p1\np2", 2);
    assert_eq!(out, "|-\n  p1\n  p2");
}

#[test]
fn block_render_with_trailing_newline() {
    let out = render_scalar("p1\np2\n", 2);
    assert_eq!(out, "|\n  p1\n  p2");
}

#[test]
fn block_render_nested_indent() {
    let out = render_scalar("a\nb", 4);
    assert_eq!(out, "|-\n    a\n    b");
}

#[test]
fn double_quote_named_escapes() {
    assert_eq!(double_quote("a\0b"), r#""a\0b""#);
    assert_eq!(double_quote("a\x07b"), r#""a\ab""#);
    assert_eq!(double_quote("a\x08b"), r#""a\bb""#);
    assert_eq!(double_quote("a\tb"), r#""a\tb""#);
    assert_eq!(double_quote("a\nb"), r#""a\nb""#);
    assert_eq!(double_quote("a\x0bb"), r#""a\vb""#);
    assert_eq!(double_quote("a\x0cb"), r#""a\fb""#);
    assert_eq!(double_quote("a\rb"), r#""a\rb""#);
    assert_eq!(double_quote("a\x1bb"), r#""a\eb""#);
}

#[test]
fn double_quote_unmapped_control_uses_hex() {
    assert_eq!(double_quote("a\x01b"), r#""a\x01b""#);
}

#[test]
fn double_quote_escapes_quotes_and_backslash() {
    assert_eq!(double_quote(r#"a"b"#), r#""a\"b""#);
    assert_eq!(double_quote(r"a\b"), r#""a\\b""#);
}

#[test]
fn plain_for_normal_iso_timestamp() {
    assert_eq!(
        scalar_style("2026-05-13T00:00:00.000Z"),
        ScalarStyle::Plain,
        "ISO timestamps do not contain `: ` (colon-space) so they stay plain"
    );
}

#[test]
fn empty_value_is_quoted() {
    assert_eq!(scalar_style(""), ScalarStyle::DoubleQuoted);
    assert_eq!(render_scalar("", 2), "\"\"");
}

#[test]
fn float_grammar_edges() {
    for v in ["5.", ".5", "1E-3", "+inf", "-NaN", "Infinity", "1e+09", "00012"] {
        assert_eq!(scalar_style(v), ScalarStyle::DoubleQuoted, "{v} should be quoted");
    }
    for v in ["1e", "1e+", ".", "1.2.3", "e5", "1_000", "infinit", "1f"] {
        assert_eq!(scalar_style(v), ScalarStyle::Plain, "{v} should be plain");
    }
}

#[test]
fn float_grammar_agrees_with_the_number_parser() {
    for v in [
        "5.", ".5", "1E-3", "inf", "infinity", "nan", "1e+09", "00012", "1e", "1e+", ".", "1.2.3",
        "e5", "1_000", "infinit", "1f", "+", "+.5e1", "1.e5", "9999999999999999999999",
    ] {
        let quoted = scalar_style(v) == ScalarStyle::DoubleQuoted;
        let numeric = v.parse::<f64>().is_ok() || v.parse::<i64>().is_ok();
        assert_eq!(quoted, numeric, "{v}");
    }
}

#[test]
fn extra_numerics_need_digits() {
    for v in ["0X1f", "0b10", "0x_", "-.inf", "+.NaN"] {
        assert_eq!(scalar_style(v), ScalarStyle::DoubleQuoted, "{v} should be quoted");
    }
    for v in ["0x", "0xg", "0o", "x10", ".infinity"] {
        assert_eq!(scalar_style(v), ScalarStyle::Plain, "{v} should be plain");
    }
}

#[test]
fn trailing_and_leading_blanks_are_quoted() {
    for v in ["a ", "a\t", " a", "\u{a0}a", "a #b", "a\u{85}b"] {
        assert_eq!(scalar_style(v), ScalarStyle::DoubleQuoted, "{v:?} should be quoted");
    }
    assert_eq!(scalar_style("a\tb"), ScalarStyle::Plain);
}

#[test]
fn block_with_indented_first_line_is_quoted() {
    assert_eq!(scalar_style(" a\nb"), ScalarStyle::DoubleQuoted);
    assert_eq!(render_scalar(" a\nb", 2), "\" a\\nb\"");
}

#[test]
fn double_quote_escapes_delete_and_keeps_text() {
    assert_eq!(double_quote("a\x7f\x1f\u{e9}"), "\"a\\x7f\\x1f\u{e9}\"");
}

#[test]
fn double_quoting_tells_values_apart() {
    assert_ne!(double_quote("a\nb"), double_quote("a\\nb"));
    assert_ne!(double_quote("\x01"), double_quote("\\x01"));
}

#[test]
fn texts_that_end_in_empty_lines_are_quoted() {
    assert_eq!(render_scalar("a\n", 2), "|\n  a");
    assert_eq!(render_scalar("a\n\n", 2), "\"a\\n\\n\"");
    assert_eq!(render_scalar("\n", 2), "\"\\n\"");
    assert_eq!(render_scalar("a\n\nb", 2), "|-\n  a\n  \n  b");
}

#[test]
fn texts_that_would_not_read_back_as_plain_are_quoted() {
    for v in ["a:", "a:\tb", "a\t#b", "?", "?\tkey", "key:"] {
        assert_eq!(scalar_style(v), ScalarStyle::DoubleQuoted, "{v:?}");
    }
    for v in ["a:b", "a#b", "?key", "a?", "a-", "a\tb"] {
        assert_eq!(scalar_style(v), ScalarStyle::Plain, "{v:?}");
    }
}

#[test]
fn a_block_does_not_open_with_a_blank() {
    for v in ["\n  abc", "\n\n\tabc", " a\nb", "\n  \nabc"] {
        assert_eq!(scalar_style(v), ScalarStyle::DoubleQuoted, "{v:?}");
    }
    let block = ScalarStyle::LiteralBlock { chomp_strip: true };
    assert_eq!(scalar_style("\nabc"), block);
    assert_eq!(scalar_style("a\n  b"), block);
}
