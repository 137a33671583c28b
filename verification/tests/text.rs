use subleq_kit::text::{
    chars_of, copy_text, included_files, parse_word, read_source, same_text, separates,
    split_lines, split_tokens, text_is, trim,
};

fn cs(s: &str) -> Vec<char> {
    s.chars().collect()
}

fn ss(v: &[&str]) -> Vec<Vec<char>> {
    v.iter().map(|s| cs(s)).collect()
}

#[test]
fn chars_of_keeps_every_character() {
    assert_eq!(chars_of("set x"), cs("set x"));
    assert_eq!(chars_of(""), cs(""));
    assert_eq!(chars_of("é\u{1F600}z"), vec!['é', '\u{1F600}', 'z']);
}

#[test]
fn lines_split_at_line_feeds_only() {
    assert_eq!(split_lines(&cs("")), ss(&[""]));
    assert_eq!(split_lines(&cs("a")), ss(&["a"]));
    assert_eq!(split_lines(&cs("a\nb")), ss(&["a", "b"]));
    assert_eq!(split_lines(&cs("a\n")), ss(&["a", ""]));
    assert_eq!(split_lines(&cs("\n\na\r\n")), ss(&["", "", "a\r", ""]));
}

#[test]
fn tokens_are_runs_between_separators() {
    assert_eq!(split_tokens(&cs("")), ss(&[]));
    assert_eq!(split_tokens(&cs("   \t ")), ss(&[]));
    assert_eq!(split_tokens(&cs("set  IOUT\tx\r")), ss(&["set", "IOUT", "x"]));
    assert_eq!(split_tokens(&cs(" a")), ss(&["a"]));
    assert_eq!(split_tokens(&cs("a\x0Cb")), ss(&["a", "b"]));
    assert_eq!(split_tokens(&cs("a\x0Bb")), ss(&["a\x0Bb"]));
    assert_eq!(split_tokens(&cs("a\u{A0}b")), ss(&["a\u{A0}b"]));
}

#[test]
fn separators_are_the_five_ascii_ones() {
    for c in [' ', '\t', '\n', '\x0C', '\r'] {
        assert!(separates(c));
    }
    for c in ['a', '\x0B', '\u{A0}', '\u{2003}', '0', '.'] {
        assert!(!separates(c));
    }
}

#[test]
fn source_is_lines_of_tokens() {
    let src = read_source(&cs(".dat x 5\n#start\n\nset IOUT x"));
    assert_eq!(src.len(), 4);
    assert_eq!(src[0], ss(&[".dat", "x", "5"]));
    assert_eq!(src[1], ss(&["#start"]));
    assert_eq!(src[2], ss(&[]));
    assert_eq!(src[3], ss(&["set", "IOUT", "x"]));
}

#[test]
fn literals_are_signed_decimals_that_fit_a_word() {
    assert_eq!(parse_word(&cs("0")), Some(0));
    assert_eq!(parse_word(&cs("5")), Some(5));
    assert_eq!(parse_word(&cs("+5")), Some(5));
    assert_eq!(parse_word(&cs("-5")), Some(-5));
    assert_eq!(parse_word(&cs("-0")), Some(0));
    assert_eq!(parse_word(&cs("0005")), Some(5));
    assert_eq!(parse_word(&cs("000000000000000000000000032767")), Some(32767));
    assert_eq!(parse_word(&cs("32767")), Some(i16::MAX));
    assert_eq!(parse_word(&cs("-32768")), Some(i16::MIN));
}

#[test]
fn literals_reject_everything_else() {
    for s in [
        "", "+", "-", "32768", "-32769", "99999999999999999999", "1a", "a1", " 1", "1 ", "0x10",
        "1_000", "--1", "+-1", "1.0", "\u{0661}", "x",
    ] {
        assert_eq!(parse_word(&cs(s)), None, "{:?}", s);
    }
}

#[test]
fn texts_compare_by_their_characters() {
    assert!(same_text(&cs("abc"), &cs("abc")));
    assert!(same_text(&cs(""), &cs("")));
    assert!(!same_text(&cs("abc"), &cs("abd")));
    assert!(!same_text(&cs("abc"), &cs("ab")));
    assert!(text_is(&cs(".dat"), ".dat"));
    assert!(!text_is(&cs(".data"), ".dat"));
    assert_eq!(copy_text(&cs("héllo")), cs("héllo"));
}

#[test]
fn trim_removes_unicode_white_space_at_both_ends() {
    assert_eq!(trim(&cs("  a b \t")), cs("a b"));
    assert_eq!(trim(&cs("\u{2003}%x\u{A0}\r")), cs("%x"));
    assert_eq!(trim(&cs("a")), cs("a"));
    assert_eq!(trim(&cs("   ")), cs(""));
    assert_eq!(trim(&cs("")), cs(""));
}

#[test]
fn included_files_are_named_by_lines_that_start_with_the_mark() {
    let text = cs("%lib\nset A B\n %not\n%dir/util  \r\n%\n%a b\n");
    assert_eq!(
        included_files(&text),
        vec!["lib.sla".to_string(), "dir/util.sla".to_string(), ".sla".to_string(), "a b.sla".to_string()]
    );
    assert_eq!(included_files(&cs("set A B")), Vec::<String>::new());
}
