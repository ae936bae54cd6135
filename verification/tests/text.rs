use codegraph_ui::text::{
    begins_with, decimal_text, join, replace_char, same_text, split_lines,
};

#[test]
fn lines_end_as_in_the_standard_library() {
    for text in [
        "", "\n", "\r\n", "a", "a\n", "a\r\n", "a\r", "a\r\r\n", "a\n\nb", "a\r\nb\nc", "a\rb\n",
        "\n\n", "\r", "\r\r", "x\n\r\n\ry", "行一\n行二\r\n", "a\n\r",
    ] {
        let expected: Vec<String> = text.lines().map(|line| line.to_string()).collect();
        assert_eq!(split_lines(text), expected, "{:?}", text);
    }
}

#[test]
fn decimal_numbers() {
    for number in [0usize, 1, 9, 10, 99, 100, 500, 3000, 1234567890, usize::MAX] {
        assert_eq!(decimal_text(number), number.to_string());
    }
}

#[test]
fn joined_parts() {
    assert_eq!(join(&vec![], " and "), "");
    assert_eq!(join(&vec!["a"], " and "), "a");
    assert_eq!(join(&vec!["a", "b", "c"], " and "), "a and b and c");
}

#[test]
fn replaced_characters() {
    assert_eq!(replace_char("a.b..", '.', "::"), "a::b::::");
    assert_eq!(replace_char("图.", '.', ""), "图");
}

#[test]
fn beginnings_and_equality() {
    assert!(begins_with("-a", '-'));
    assert!(!begins_with("a-", '-'));
    assert!(!begins_with("", '-'));
    assert!(same_text("图", "图"));
    assert!(!same_text("a", "ab"));
}
