use library::parser::{
    category_parse, classify, context_parser, rule_parse, statements, Category, Context, Line,
    Mismatch, Rule,
};
use library::scan::Expected;

#[test]
fn category_with_terminator_and_more_text() {
    assert_eq!(
        category_parse("Cons :: m n b t\nVows :: a e\n"),
        Some(Category { name: "Cons", items: "m n b t", remainder: "Vows :: a e\n" })
    );
}

#[test]
fn category_ends_at_the_first_terminator_of_either_kind() {
    assert_eq!(
        category_parse("Cons :: m n; Vows :: a e\n"),
        Some(Category { name: "Cons", items: "m n", remainder: " Vows :: a e\n" })
    );
    assert_eq!(
        category_parse("Cons :: m n\nVows :: a e;"),
        Some(Category { name: "Cons", items: "m n", remainder: "Vows :: a e;" })
    );
}

#[test]
fn category_ends_at_the_end_of_the_text() {
    assert_eq!(
        category_parse("Cons :: m n b t"),
        Some(Category { name: "Cons", items: "m n b t", remainder: "" })
    );
    assert_eq!(
        category_parse("Cons ::"),
        Some(Category { name: "Cons", items: "", remainder: "" })
    );
}

#[test]
fn category_allows_white_space_around_its_parts() {
    assert_eq!(
        category_parse(" \t Cons\u{3000}::\u{a0} m;"),
        Some(Category { name: "Cons", items: "m", remainder: "" })
    );
    assert_eq!(
        category_parse("C1::m\n"),
        Some(Category { name: "C1", items: "m", remainder: "" })
    );
}

#[test]
fn category_keeps_white_space_inside_and_behind_the_items() {
    assert_eq!(
        category_parse("Vows ::  a   e \nrest"),
        Some(Category { name: "Vows", items: "a   e ", remainder: "rest" })
    );
}

#[test]
fn category_needs_a_name_and_the_marker() {
    assert_eq!(category_parse(":: m n\n"), None);
    assert_eq!(category_parse("Cons : m n\n"), None);
    assert_eq!(category_parse("Cons m n\n"), None);
    assert_eq!(category_parse("a > e\n"), None);
    assert_eq!(category_parse(""), None);
    assert_eq!(category_parse("è :: a\n"), None);
}

#[test]
fn context_with_material_on_both_sides() {
    assert_eq!(
        context_parser("/ a_b;rest"),
        Some(Context { environment: "a_b", remainder: "rest" })
    );
    assert_eq!(context_parser("/w_"), Some(Context { environment: "w_", remainder: "" }));
    assert_eq!(context_parser("/ _9 ;"), Some(Context { environment: "_9", remainder: "" }));
    assert_eq!(context_parser("/ _"), Some(Context { environment: "_", remainder: "" }));
}

#[test]
fn context_needs_the_slash_one_anchor_and_an_end() {
    assert_eq!(context_parser("a_b;"), None);
    assert_eq!(context_parser("/ ab;"), None);
    assert_eq!(context_parser("/ a__b;"), None);
    assert_eq!(context_parser("/ a_b c;"), None);
    assert_eq!(context_parser(""), None);
}

#[test]
fn rule_with_and_without_context() {
    assert_eq!(
        rule_parse("a > e / _;"),
        Ok(Rule { pattern: "a", substitution: "e", context: "_", remainder: "" })
    );
    assert_eq!(
        rule_parse(" i > ei;\no > u / w_"),
        Ok(Rule { pattern: "i", substitution: "ei", context: "", remainder: "\no > u / w_" })
    );
    assert_eq!(
        rule_parse("\no > u / w_"),
        Ok(Rule { pattern: "o", substitution: "u", context: "w_", remainder: "" })
    );
    assert_eq!(
        rule_parse("a > e"),
        Ok(Rule { pattern: "a", substitution: "e", context: "", remainder: "" })
    );
}

#[test]
fn rule_with_either_operator_and_empty_substitution() {
    assert_eq!(
        rule_parse("a / e / _b;"),
        Ok(Rule { pattern: "a", substitution: "e", context: "_b", remainder: "" })
    );
    assert_eq!(
        rule_parse("h > / _;x"),
        Ok(Rule { pattern: "h", substitution: "", context: "_", remainder: "x" })
    );
    assert_eq!(
        rule_parse("h>;"),
        Ok(Rule { pattern: "h", substitution: "", context: "", remainder: "" })
    );
}

#[test]
fn rule_takes_a_line_break_for_white_space() {
    assert_eq!(
        rule_parse("a > e\n"),
        Ok(Rule { pattern: "a", substitution: "e", context: "", remainder: "" })
    );
    assert_eq!(
        rule_parse("a > e\n/ _;"),
        Ok(Rule { pattern: "a", substitution: "e", context: "_", remainder: "" })
    );
    assert_eq!(rule_parse("a > e\nb > c"), Err(Mismatch { at: "b > c", expected: Expected::Eof }));
}

#[test]
fn rule_says_where_it_stopped_and_what_was_missing() {
    assert_eq!(
        rule_parse("  > e;"),
        Err(Mismatch { at: "> e;", expected: Expected::AlphaNumeric })
    );
    assert_eq!(rule_parse(""), Err(Mismatch { at: "", expected: Expected::AlphaNumeric }));
    assert_eq!(rule_parse("Cons :: m"), Err(Mismatch { at: ":: m", expected: Expected::Tag }));
    assert_eq!(rule_parse("a"), Err(Mismatch { at: "", expected: Expected::Tag }));
    assert_eq!(rule_parse("a > e f;"), Err(Mismatch { at: "f;", expected: Expected::Eof }));
    assert_eq!(rule_parse("a > e / b;"), Err(Mismatch { at: "/ b;", expected: Expected::Eof }));
}

#[test]
fn classify_tries_category_first_then_rule() {
    assert_eq!(
        classify("Cons :: m;"),
        Line::Category(Category { name: "Cons", items: "m", remainder: "" })
    );
    assert_eq!(
        classify("a > e;"),
        Line::Rule(Rule { pattern: "a", substitution: "e", context: "", remainder: "" })
    );
    assert_eq!(
        classify("a b"),
        Line::Unrecognized(Mismatch { at: "b", expected: Expected::Tag })
    );
}

#[test]
fn remainder_of_each_line() {
    assert_eq!(classify("Cons :: m;rest").remainder(), "rest");
    assert_eq!(classify("a > e / _;rest").remainder(), "rest");
    assert_eq!(classify("? rest").remainder(), "");
}

#[test]
fn statements_in_the_order_of_the_text() {
    assert_eq!(
        statements("Cons :: m n\na > e / _;"),
        vec![
            Line::Category(Category { name: "Cons", items: "m n", remainder: "a > e / _;" }),
            Line::Rule(Rule { pattern: "a", substitution: "e", context: "_", remainder: "" }),
        ]
    );
}

#[test]
fn statements_end_with_the_first_unrecognized_line() {
    assert_eq!(
        statements("Cons :: m n;oops;Vows :: a e;"),
        vec![
            Line::Category(Category { name: "Cons", items: "m n", remainder: "oops;Vows :: a e;" }),
            Line::Unrecognized(Mismatch { at: ";Vows :: a e;", expected: Expected::Tag }),
        ]
    );
    assert_eq!(
        statements(""),
        vec![Line::Unrecognized(Mismatch { at: "", expected: Expected::AlphaNumeric })]
    );
}

#[test]
fn statements_are_as_many_as_the_lines_of_the_transcript() {
    let text = "Cons :: m n\nVows :: a e\na > e / _;i > ei;o > u / w_";
    let lines = statements(text);
    assert_eq!(lines.len(), 5);
    let written = library::parser::process(&String::from(text));
    assert_eq!(written.matches('\n').count(), lines.len());
}
