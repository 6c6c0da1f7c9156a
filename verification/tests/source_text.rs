use monty_compat::protocols::{
    binary_protocol_feature, reflected_protocol, unary_protocol, BinaryOperator, UnaryOperator,
};
use monty_compat::source_text::{
    line_end_including_newline, line_start, mangle_private_name, nested_indent,
    normalize_unicode_decimal_literal, reindent_suite, reindent_text,
    simple_string_literal_contents, static_bytes_literal, unicode_decimal_digit,
};

#[test]
fn line_bounds_follow_newlines() {
    assert_eq!(line_start("ab\ncd", 4), Some(3));
    assert_eq!(line_start("ab\ncd", 2), Some(0));
    assert_eq!(line_start("ab\n", 3), Some(3));
    assert_eq!(line_start("ab", 5), None);
    assert_eq!(line_start("é", 1), None);
    assert_eq!(line_end_including_newline("ab\ncd", 1), Some(3));
    assert_eq!(line_end_including_newline("ab\ncd", 3), Some(5));
    assert_eq!(line_end_including_newline("ab", 3), None);
}

#[test]
fn nested_indentation_repeats_the_unit() {
    assert_eq!(nested_indent("  ", "    ", 2), "          ");
    assert_eq!(nested_indent("\t", " ", 0), "\t");
}

#[test]
fn private_names_are_mangled_like_python() {
    assert_eq!(mangle_private_name("_Foo", "__x").as_deref(), Some("_Foo__x"));
    assert_eq!(mangle_private_name("Foo", "__init__"), None);
    assert_eq!(mangle_private_name("Foo", "_x"), None);
    assert_eq!(mangle_private_name("Foo", "__a.b"), None);
    assert_eq!(mangle_private_name("__", "__x"), None);
}

#[test]
fn simple_string_literals_expose_their_contents() {
    assert_eq!(simple_string_literal_contents("'abc'"), Some("abc"));
    assert_eq!(simple_string_literal_contents("\"é\""), Some("é"));
    assert_eq!(simple_string_literal_contents("''"), None);
    assert_eq!(simple_string_literal_contents("'a\\b'"), None);
    assert_eq!(simple_string_literal_contents("\"a'"), None);
    assert_eq!(simple_string_literal_contents("'''a'''"), None);
}

#[test]
fn unicode_decimal_digits_have_values() {
    assert_eq!(unicode_decimal_digit('٣'), Some(3));
    assert_eq!(unicode_decimal_digit('7'), Some(7));
    assert_eq!(unicode_decimal_digit('９'), Some(9));
    assert_eq!(unicode_decimal_digit('a'), None);
    assert_eq!(unicode_decimal_digit('\u{1e959}'), Some(9));
}

#[test]
fn foreign_digits_in_literals_become_ascii() {
    assert_eq!(normalize_unicode_decimal_literal("'١٢x'").as_deref(), Some("'12x'"));
    assert_eq!(normalize_unicode_decimal_literal("'12'"), None);
    assert_eq!(normalize_unicode_decimal_literal("x١"), None);
}

#[test]
fn reindenting_moves_each_nonblank_line() {
    assert_eq!(reindent_text("    a\n\n    b\nc", "    ", "  "), "  a\n\n  b\n  c");
    assert_eq!(reindent_text("", "    ", "  "), "");
    assert_eq!(reindent_text("x\n  \n", "", "\t"), "\tx\n  \n");
}

#[test]
fn byte_values_become_a_bytes_literal() {
    assert_eq!(static_bytes_literal(&[104, 105, 0, 92, 34, 255]), "b\"hi\\x00\\\\\\\"\\xff\"");
    assert_eq!(static_bytes_literal(&[]), "b\"\"");
}

#[test]
fn suites_are_reindented_from_their_first_line() {
    let source = "if x:\n    @d\n    def f(): pass\n    y = 1\nz = 2\n";
    let first = source.find('@').unwrap();
    let last = source.find("y = 1").unwrap() + "y = 1".len();
    assert_eq!(
        reindent_suite(source, first, last, "").as_deref(),
        Some("@d\ndef f(): pass\ny = 1\n")
    );
    assert_eq!(reindent_suite(source, 100, 2, ""), None);
    assert_eq!(reindent_suite(source, last, first, "").as_deref(), None);
}

#[test]
fn operators_name_their_protocols() {
    assert_eq!(binary_protocol_feature(BinaryOperator::Div), "protocol.binary.truediv");
    assert_eq!(binary_protocol_feature(BinaryOperator::BitOr), "protocol.binary.bitor");
    assert_eq!(reflected_protocol(BinaryOperator::BitAnd), ("protocol.reflected.bitand", "__rand__"));
    assert_eq!(reflected_protocol(BinaryOperator::Mult), ("protocol.reflected.mul", "__rmul__"));
    assert_eq!(unary_protocol(UnaryOperator::USub), Some(("protocol.unary.neg", "__neg__")));
    assert_eq!(unary_protocol(UnaryOperator::Not), None);
}
