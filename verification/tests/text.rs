use hack_toolchain::text::{
    base_name_of, bits_string, chars_of, decimal_string, find_after_last, parse_number,
    same_text, split, tokenize, trimmed,
};

#[test]
fn chars_of_keeps_every_character() {
    assert_eq!(chars_of("a b"), vec!['a', ' ', 'b']);
    assert_eq!(chars_of(""), Vec::<char>::new());
    assert_eq!(chars_of("é√"), vec!['é', '√']);
}

#[test]
fn same_text_compares_character_by_character() {
    assert!(same_text("push", "push"));
    assert!(!same_text("push", "pop"));
    assert!(!same_text("push", "pus"));
    assert!(same_text("", ""));
}

#[test]
fn decimal_string_writes_numerals() {
    assert_eq!(decimal_string(0), "0");
    assert_eq!(decimal_string(7), "7");
    assert_eq!(decimal_string(10), "10");
    assert_eq!(decimal_string(32767), "32767");
    assert_eq!(decimal_string(1_000_000), "1000000");
    assert_eq!(decimal_string(usize::MAX), usize::MAX.to_string());
}

#[test]
fn parse_number_reads_numerals() {
    assert_eq!(parse_number("0"), Some(0));
    assert_eq!(parse_number("42"), Some(42));
    assert_eq!(parse_number("007"), Some(7));
    assert_eq!(parse_number("+5"), Some(5));
    assert_eq!(parse_number(&usize::MAX.to_string()), Some(usize::MAX));
}

#[test]
fn parse_number_refuses_what_is_no_numeral() {
    assert_eq!(parse_number(""), None);
    assert_eq!(parse_number("+"), None);
    assert_eq!(parse_number("-1"), None);
    assert_eq!(parse_number("12a"), None);
    assert_eq!(parse_number("a12"), None);
    assert_eq!(parse_number("1 2"), None);
    assert_eq!(parse_number("++1"), None);
}

#[test]
fn parse_number_refuses_what_does_not_fit() {
    let too_large = format!("{}0", usize::MAX);
    assert_eq!(parse_number(&too_large), None);
    assert_eq!(parse_number("99999999999999999999999999999999999999999"), None);
}

#[test]
fn parse_number_inverts_decimal_string() {
    for n in [0usize, 1, 9, 10, 99, 100, 255, 32767, 65535, 123456789] {
        assert_eq!(parse_number(&decimal_string(n)), Some(n));
    }
}

#[test]
fn tokenize_splits_on_runs_of_separators() {
    assert_eq!(tokenize("push constant 7"), vec!["push", "constant", "7"]);
    assert_eq!(tokenize("  push \t constant   7  "), vec!["push", "constant", "7"]);
    assert_eq!(tokenize("add"), vec!["add"]);
    assert_eq!(tokenize("add\r"), vec!["add"]);
}

#[test]
fn tokenize_drops_the_comment() {
    assert_eq!(tokenize("push local 0 // first local"), vec!["push", "local", "0"]);
    assert_eq!(tokenize("pop that 5//no space"), vec!["pop", "that", "5"]);
    assert_eq!(tokenize("// only a comment"), Vec::<String>::new());
    assert_eq!(tokenize("a / b"), vec!["a", "/", "b"]);
}

#[test]
fn tokenize_of_an_empty_line_is_empty() {
    assert_eq!(tokenize(""), Vec::<String>::new());
    assert_eq!(tokenize("   \t "), Vec::<String>::new());
}

#[test]
fn trimmed_removes_separators_at_both_ends() {
    assert_eq!(trimmed("  D=M  "), "D=M");
    assert_eq!(trimmed("D=M"), "D=M");
    assert_eq!(trimmed("\tA = 1\r\n"), "A = 1");
    assert_eq!(trimmed("   "), "");
    assert_eq!(trimmed(""), "");
}

#[test]
fn split_gives_one_piece_more_than_separators() {
    assert_eq!(split("a\nb\nc", '\n'), vec!["a", "b", "c"]);
    assert_eq!(split("a\nb\n", '\n'), vec!["a", "b", ""]);
    assert_eq!(split("", '\n'), vec![""]);
    assert_eq!(split("\n", '\n'), vec!["", ""]);
    assert_eq!(split("no break", '\n'), vec!["no break"]);
}

#[test]
fn bits_string_writes_the_low_bits() {
    assert_eq!(bits_string(0, 15), "000000000000000");
    assert_eq!(bits_string(2, 15), "000000000000010");
    assert_eq!(bits_string(32767, 15), "111111111111111");
    assert_eq!(bits_string(16384, 15), "100000000000000");
    assert_eq!(bits_string(5, 3), "101");
    assert_eq!(bits_string(13, 3), "101");
    assert_eq!(bits_string(9, 0), "");
}

#[test]
fn find_after_last_counts_from_the_start_given() {
    let chars = chars_of("a/b/c.vm");
    assert_eq!(find_after_last(&chars, '/', 0), 4);
    assert_eq!(find_after_last(&chars, '/', 2), 2);
    assert_eq!(find_after_last(&chars, '/', 4), 0);
    assert_eq!(find_after_last(&chars, '.', 4), 2);
    assert_eq!(find_after_last(&chars, 'x', 0), 0);
    assert_eq!(find_after_last(&chars, 'm', 8), 0);
    assert_eq!(find_after_last(&chars, 'm', 0), 8);
}

#[test]
fn base_name_of_drops_directories_and_extension() {
    assert_eq!(base_name_of("prog/Main.vm"), "Main");
    assert_eq!(base_name_of("Main.vm"), "Main");
    assert_eq!(base_name_of("a/b.c/d.e.vm"), "d.e");
    assert_eq!(base_name_of("Main"), "Main");
    assert_eq!(base_name_of(".vm"), ".vm");
    assert_eq!(base_name_of("dir/.vm"), ".vm");
    assert_eq!(base_name_of("x."), "x");
    assert_eq!(base_name_of("/"), "");
    assert_eq!(base_name_of(""), "");
}
