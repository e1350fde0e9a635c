use simple_shell::strings::{has_char, same_text, split_at, split_whitespace};

#[test]
fn a_line_is_split_at_runs_of_white_space() {
    assert_eq!(split_whitespace("ls -l  /tmp"), vec!["ls", "-l", "/tmp"]);
    assert_eq!(split_whitespace("  cd\t/home/alice \n"), vec!["cd", "/home/alice"]);
    assert_eq!(split_whitespace("exit"), vec!["exit"]);
}

#[test]
fn a_blank_line_has_no_token() {
    assert!(split_whitespace("").is_empty());
    assert!(split_whitespace(" \t \n").is_empty());
}

#[test]
fn white_space_is_what_unicode_says() {
    assert_eq!(split_whitespace("a\u{2003}b\u{a0}c"), vec!["a", "b", "c"]);
    assert_eq!(split_whitespace("a\u{200b}b"), vec!["a\u{200b}b"]);
}

#[test]
fn a_text_is_split_at_each_separator() {
    assert_eq!(split_at("/bin:/usr/bin", ':'), vec!["/bin", "/usr/bin"]);
    assert_eq!(split_at("/bin", ':'), vec!["/bin"]);
    assert_eq!(split_at("", ':'), vec![""]);
    assert_eq!(split_at(":/bin::", ':'), vec!["", "/bin", "", ""]);
}

#[test]
fn a_character_is_found_where_it_is() {
    assert!(has_char("./run", '/'));
    assert!(!has_char("run", '/'));
    assert!(has_char("a\0b", '\0'));
    assert!(!has_char("", 'a'));
}

#[test]
fn texts_are_compared_whole() {
    assert!(same_text("exit", "exit"));
    assert!(!same_text("exit", "exit "));
    assert!(!same_text("cd", "exit"));
    assert!(same_text("", ""));
}
