use puzzle_gate::config::debug_flag;
use puzzle_gate::board::{START_STATE, TARGET_STATE};
use puzzle_gate::email::{is_email_char, is_valid_email};
use puzzle_gate::text::{center_text, decimal_text, render_state, space_text, trim_to_width};

#[test]
fn email_examples() {
    assert!(is_valid_email("a@b.co"));
    assert!(!is_valid_email("bad email@x.com"));
    assert!(!is_valid_email("user@@x.com"));
    assert!(!is_valid_email("user@.com"));
    assert!(!is_valid_email("ab@c"));
}

#[test]
fn email_edge_cases() {
    assert!(is_valid_email("user@example.com"));
    assert!(!is_valid_email("a@b."));
    assert!(!is_valid_email("userx.com"));
    assert!(!is_valid_email("@bc.de"));
    assert!(!is_valid_email("a@b.c@d"));
    assert!(!is_valid_email("ab@c.d\t"));
    assert!(!is_valid_email("a@.c."));
    assert!(!is_valid_email(""));
    assert!(is_valid_email("a.b@c.d"));
}

#[test]
fn email_input_alphabet() {
    for c in ['a', 'Z', '0', '9', '.', '_', '-', '+', '@'] {
        assert!(is_email_char(c), "{}", c);
    }
    for c in [' ', '!', '#', 'é', '/', '\n'] {
        assert!(!is_email_char(c), "{:?}", c);
    }
}

#[test]
fn trim_and_center() {
    assert_eq!(trim_to_width("abcdef", 3), "abc");
    assert_eq!(trim_to_width("ab", 5), "ab");
    assert_eq!(center_text("ab", 7), "  ab   ");
    assert_eq!(center_text("abcdef", 4), "abcd");
    assert_eq!(center_text("", 2), "  ");
    assert_eq!(space_text(3), "   ");
}

#[test]
fn render_boards() {
    assert_eq!(render_state(START_STATE), "OFF | OFF | OFF | OFF | OFF | OFF");
    assert_eq!(
        render_state(TARGET_STATE),
        "WHITE | PURPLE | GREEN | WHITE | PURPLE | GREEN"
    );
}

#[test]
fn decimal_numbers() {
    assert_eq!(decimal_text(0), "0");
    assert_eq!(decimal_text(7), "7");
    assert_eq!(decimal_text(16), "16");
    assert_eq!(decimal_text(46656), "46656");
}

#[test]
fn email_rejects_unicode_whitespace() {
    assert!(!is_valid_email("ab@c.d\u{b}"));
    assert!(!is_valid_email("ab@c.d\u{a0}"));
    assert!(!is_valid_email("ab\u{3000}@c.de"));
    assert!(!is_valid_email("ab@c.d\u{2028}"));
    assert!(!is_valid_email("\u{85}ab@c.de"));
    assert!(is_valid_email("ab@c.de"));
}

#[test]
fn debug_flag_values() {
    for v in ["1", "true", "TRUE", "Yes", " on ", "\tON\n", "tRuE"] {
        assert!(debug_flag(v), "{:?}", v);
    }
    for v in ["", "0", "false", "no", "off", "onn", "t rue", "   ", "yes!"] {
        assert!(!debug_flag(v), "{:?}", v);
    }
}
