use wiktionary_en::style::Style;
use wiktionary_en::text::{
    format_integer, horizontal_line, indent, lex_less_or_equal, usize_to_string, wrap, Join,
    JoinWrap,
};

fn plain_output() {
    colored::control::set_override(false);
}

#[test]
fn joining_strings() {
    let vec: Vec<String> = [1, 2, 3, 4, 5].iter().map(|&num| num.to_string()).collect();
    let joined = String::from(",").join(vec);
    assert_eq!(joined, "1,2,3,4,5");
}

#[test]
fn joining_a_singelton_list() {
    let vec: Vec<String> = [1].iter().map(|&num| num.to_string()).collect();
    let joined = String::from(",").join(vec);
    assert_eq!(joined, "1");
}

#[test]
fn joining_nothing() {
    let joined = String::from(",").join(Vec::new());
    assert_eq!(joined, "");
}

#[test]
fn formatting_zero() {
    assert_eq!(format_integer(0).text.to_ascii_lowercase(), "0");
}

#[test]
fn formatting_million() {
    assert_eq!(format_integer(1000000).text.to_ascii_lowercase(), "1,000,000");
}

#[test]
fn formatting_ten_thousand() {
    assert_eq!(format_integer(10000).text.to_ascii_lowercase(), "10,000");
}

#[test]
fn formatting_small_and_odd_groups() {
    assert_eq!(format_integer(999).text, "999");
    assert_eq!(format_integer(1234).text, "1,234");
    assert_eq!(format_integer(12345678).text, "12,345,678");
    assert_eq!(format_integer(1234).style, Style::Yellow);
}

#[test]
fn decimal_representation() {
    assert_eq!(usize_to_string(0), "0");
    assert_eq!(usize_to_string(7), "7");
    assert_eq!(usize_to_string(1907), "1907");
    assert_eq!(usize_to_string(usize::MAX), usize::MAX.to_string());
}

#[test]
fn horizontal_line_is_eighty_spaces() {
    let line = horizontal_line();
    assert_eq!(line.text, " ".repeat(80));
    assert_eq!(line.style, Style::Strikethrough);
    plain_output();
    assert_eq!(line.to_string(), " ".repeat(80));
}

#[test]
fn wrapping_text() {
    assert_eq!(
        wrap("Memory safety without garbage collection.", 15),
        "Memory safety\nwithout garbage\ncollection."
    );
    assert_eq!(wrap("short  ", 80), "short");
    assert_eq!(wrap("", 80), "");
}

#[test]
fn indenting_text() {
    assert_eq!(indent("a\nb"), " a\n b");
    assert_eq!(indent("a\n\nb\n"), " a\n\n b\n");
    assert_eq!(indent("a\n\n b\n"), " a\n\n  b\n");
    assert_eq!(indent("   \nx"), "   \n x");
    assert_eq!(indent(""), "");
    assert_eq!(indent("\n"), "\n");
}

#[test]
fn joining_and_wrapping() {
    let list = vec!["Memory safety".to_string(), "without garbage collection.".to_string()];
    assert_eq!(
        String::from(" ").joinwrap(list, 15),
        "Memory safety\nwithout garbage\ncollection."
    );
}

#[test]
fn lexicographic_order() {
    assert!(lex_less_or_equal("French", "German"));
    assert!(!lex_less_or_equal("German", "French"));
    assert!(lex_less_or_equal("Ger", "German"));
    assert!(!lex_less_or_equal("German", "Ger"));
    assert!(lex_less_or_equal("", ""));
    assert!(lex_less_or_equal("Z", "a"));
}
