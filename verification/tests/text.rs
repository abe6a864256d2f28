use library::chars::Class;
use library::parser::{format_entry, join, parse, split_items};

#[test]
fn class_space_is_unicode_white_space() {
    for c in [' ', '\t', '\n', '\r', '\u{a0}', '\u{2003}', '\u{3000}'] {
        assert!(Class::Space.contains(c));
    }
    for c in ['a', '_', ';', '0', '\u{200b}', '越'] {
        assert!(!Class::Space.contains(c));
    }
}

#[test]
fn class_space_holds_of_25_characters() {
    let listed = |c: char| {
        matches!(
            c,
            '\u{9}'..='\u{d}'
                | ' '
                | '\u{85}'
                | '\u{a0}'
                | '\u{1680}'
                | '\u{2000}'..='\u{200a}'
                | '\u{2028}'
                | '\u{2029}'
                | '\u{202f}'
                | '\u{205f}'
                | '\u{3000}'
        )
    };
    let mut found = 0;
    for c in '\0'..=char::MAX {
        assert_eq!(Class::Space.contains(c), listed(c));
        if Class::Space.contains(c) {
            found += 1;
        }
    }
    assert_eq!(found, 25);
}

#[test]
fn class_alphanumeric_is_ascii_letters_and_digits() {
    for c in ['a', 'z', 'A', 'Z', '0', '9', 'm'] {
        assert!(Class::AlphaNumeric.contains(c));
    }
    for c in ['`', '{', '@', '[', '/', ':', '_', ' ', 'è', '٣'] {
        assert!(!Class::AlphaNumeric.contains(c));
    }
}

#[test]
fn class_terminator_is_line_break_and_semicolon() {
    assert!(Class::Terminator.contains('\n'));
    assert!(Class::Terminator.contains(';'));
    for c in ['\r', ':', ',', ' ', 'a'] {
        assert!(!Class::Terminator.contains(c));
    }
}

#[test]
fn split_items_collapses_white_space() {
    assert_eq!(split_items("m n b t"), vec!["m", "n", "b", "t"]);
    assert_eq!(split_items("  a \t\t e\u{3000}ae  "), vec!["a", "e", "ae"]);
    assert_eq!(
        split_items("a e ae io u ou y è "),
        vec!["a", "e", "ae", "io", "u", "ou", "y", "è"]
    );
}

#[test]
fn split_items_gives_no_empty_item() {
    assert!(split_items("").is_empty());
    assert!(split_items(" \t \n ").is_empty());
    for item in split_items("  th   sh  , .  ") {
        assert!(!item.is_empty());
        assert!(!item.contains(char::is_whitespace));
    }
}

#[test]
fn items_of_a_category_hold_no_separator() {
    let (label, items, _) = parse("  Cons  ::   m    n \t b  ;  Vows :: a\n");
    assert_eq!(label, "Name: Cons - Items:");
    assert_eq!(items, vec!["m", "n", "b"]);
    for item in items {
        assert!(!item.is_empty());
        assert!(!item.contains(char::is_whitespace));
        assert!(!item.contains(';') && !item.contains('\n'));
    }
}

#[test]
fn join_puts_the_separator_between_parts_only() {
    assert_eq!(join(&vec!["m", "n", "b"], " "), "m n b");
    assert_eq!(join(&vec!["m"], " "), "m");
    assert_eq!(join(&Vec::new(), " "), "");
    assert_eq!(join(&vec!["a", "", "b", ""], ", "), "a, , b, ");
}

#[test]
fn format_entry_starts_on_a_new_line() {
    assert_eq!(
        format_entry("Name: Cons - Items:", &vec!["m", "n"]),
        "\nName: Cons - Items: m n"
    );
    assert_eq!(format_entry("Pattern: a", &Vec::new()), "\nPattern: a ");
    assert_eq!(
        format_entry("Pattern: h", &vec!["- Substitute:", "", "- Context:", "_"]),
        "\nPattern: h - Substitute:  - Context: _"
    );
}
