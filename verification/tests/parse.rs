use reconf::as_rev_list;
use reconf::text::{is_space_char, join_lines, parse_line, split_lines, to_chars, trim};
use reconf::Config;
use reconf::ConfigError;
use reconf::PathPart;

fn pair(k: &str, v: &str) -> (String, String) {
    (k.to_string(), v.to_string())
}

fn parsed(line: &str) -> Option<(String, String)> {
    Config::parse_line(line)
}

#[test]
fn a_line_gives_its_key_and_value() {
    assert_eq!(parsed("key_name = \"value text\""), Some(pair("key_name", "value text")));
    assert_eq!(parsed("a=b"), Some(pair("a", "b")));
    assert_eq!(parse_line("a=b"), Some(pair("a", "b")));
}

#[test]
fn a_line_without_equals_gives_nothing() {
    assert_eq!(parsed(""), None);
    assert_eq!(parsed("   "), None);
    assert_eq!(parsed("# a comment"), None);
    assert_eq!(parsed("key \"value\""), None);
}

#[test]
fn the_first_equals_splits_the_line() {
    assert_eq!(parsed("a = b = c"), Some(pair("a", "b = c")));
    assert_eq!(parsed("a==b"), Some(pair("a", "=b")));
    assert_eq!(parsed("="), Some(pair("", "")));
    assert_eq!(parsed(" = \"v\""), Some(pair("", "v")));
    assert_eq!(parsed("k ="), Some(pair("k", "")));
}

#[test]
fn whitespace_round_key_and_value_is_dropped() {
    assert_eq!(parsed("  k\t=  v  "), Some(pair("k", "v")));
    assert_eq!(parsed("\u{a0}k\u{3000} = \u{2003}v\u{85}"), Some(pair("k", "v")));
    assert_eq!(parsed("a b = c d"), Some(pair("a b", "c d")));
    assert_eq!(parsed("k = v\r"), Some(pair("k", "v")));
}

#[test]
fn one_layer_of_quotation_marks_is_taken_off() {
    assert_eq!(parsed("k = \"v\""), Some(pair("k", "v")));
    assert_eq!(parsed("k = \"\"v\"\""), Some(pair("k", "\"v\"")));
    assert_eq!(parsed("k = \"\""), Some(pair("k", "")));
    assert_eq!(parsed("k = \""), Some(pair("k", "")));
    assert_eq!(parsed("k = \"v"), Some(pair("k", "v")));
    assert_eq!(parsed("k = v\""), Some(pair("k", "v")));
    assert_eq!(parsed("k = \" v \""), Some(pair("k", " v ")));
    assert_eq!(parsed("k = a\"b"), Some(pair("k", "a\"b")));
    assert_eq!(parsed("\"k\" = v"), Some(pair("\"k\"", "v")));
}

#[test]
fn whitespace_is_what_the_standard_library_calls_whitespace() {
    let mut n: u32 = 0;
    while n <= 0x10ffff {
        if let Some(c) = char::from_u32(n) {
            assert_eq!(is_space_char(c), c.is_whitespace(), "U+{:04X}", n);
        }
        n += 1;
    }
}

#[test]
fn trim_is_what_the_standard_library_trims() {
    for s in ["", " ", "a", " a", "a ", "  a b  ", "\t\n x \r\n", "\u{a0}é\u{2009}", " \u{200b} "] {
        assert_eq!(trim(s), s.trim(), "{:?}", s);
    }
}

#[test]
fn to_chars_gives_each_character() {
    assert_eq!(to_chars("aé\u{1f600}"), vec!['a', 'é', '\u{1f600}']);
    assert_eq!(to_chars(""), Vec::<char>::new());
}

#[test]
fn lines_are_what_the_standard_library_splits() {
    for s in [
        "", "a", "a\n", "a\nb", "a\n\nb", "\n", "\n\n", "a\r\n", "a\r\nb", "a\r", "a\r\nb\r", "\r\n",
        "\r", "a\n\r\nb\n", "é\nü\r\n", "a\r\r\nb",
    ] {
        let expected: Vec<String> = s.lines().map(|l| l.to_string()).collect();
        assert_eq!(split_lines(s), expected, "{:?}", s);
    }
}

#[test]
fn join_lines_puts_the_separator_between() {
    let lines = vec!["a".to_string(), "".to_string(), "b".to_string()];
    assert_eq!(join_lines(&lines, "\r\n"), "a\r\n\r\nb");
    assert_eq!(join_lines(&lines[..1].to_vec(), "\n"), "a");
    assert_eq!(join_lines(&Vec::new(), "\n"), "");
}

#[test]
fn the_topmost_of_two_lines_with_one_key_wins() {
    let mut c = Config::new();
    c.insert_from_string("k=\"a\"\nother = 1\nk=\"b\"");
    assert_eq!(c.get("k"), Some("a".to_string()));
    assert_eq!(c.list_keys().len(), 2);
}

#[test]
fn text_with_a_repeated_key_gives_two_entries() {
    let mut c = Config::new();
    c.insert_from_string("a = \"1\"\nb = \"2\"\na = \"9\"");
    assert_eq!(c.list_keys().len(), 2);
    assert_eq!(c.get("a"), Some("1".to_string()));
    assert_eq!(c.get("b"), Some("2".to_string()));
    // The lines are read bottom first: `a` is entered before `b`, and what
    // was entered later is shown first.
    assert_eq!(c.to_string(), "b = \"2\"\na = \"1\"");
}

#[test]
fn text_without_repeated_keys_keeps_its_order() {
    let mut c = Config::new();
    c.insert_from_string("x = \"1\"\ny = \"2\"\n\nnot a pair\nz = \"3\"\n");
    assert_eq!(c.to_string(), "x = \"1\"\ny = \"2\"\nz = \"3\"");
}

#[test]
fn insert_from_string_overwrites_what_the_store_has() {
    let mut c = Config::new();
    c.set("a", "old");
    c.set("b", "keep");
    c.insert_from_string("a = new\nc = 3");
    assert_eq!(c.get("a"), Some("new".to_string()));
    assert_eq!(c.get("b"), Some("keep".to_string()));
    // read bottom first: `c` is entered, then `a` takes its new value in place
    assert_eq!(c.list_keys(), vec!["c", "b", "a"]);
}

#[test]
fn insert_line_passes_over_a_line_without_a_pair() {
    let mut c = Config::new();
    c.insert_line("no pair here");
    assert_eq!(c.list_keys().len(), 0);
    c.insert_line(" k = \"v\" ");
    assert_eq!(as_rev_list(&c.data), vec![pair("k", "v")]);
    c.insert_line("k = w");
    assert_eq!(as_rev_list(&c.data), vec![pair("k", "w")]);
}

#[test]
fn read_file_takes_the_lines_bottom_first() {
    // the file reads: a = 1 / b = 2 / a = 9
    let lines = vec!["a = \"9\"".to_string(), "b = \"2\"".to_string(), "a = \"1\"".to_string()];
    let mut c = Config::new();
    c.set_path(&vec![PathPart::Normal("file.cfg".to_string())]);
    assert!(c.read_file(true, false, &lines).is_ok());
    assert_eq!(c.get("a"), Some("1".to_string()));
    assert_eq!(c.to_string(), "b = \"2\"\na = \"1\"");
}

#[test]
fn read_file_passes_over_what_cannot_be_read() {
    let lines = vec!["a = 1".to_string()];
    let mut c = Config::new();
    c.set("k", "v");
    assert!(matches!(c.read_file(true, false, &lines), Err(ConfigError::NoPathSet)));
    assert_eq!(c.to_string(), "k = \"v\"");
    c.set_path(&vec![PathPart::Normal("dir".to_string())]);
    assert!(matches!(c.read_file(false, true, &lines), Err(ConfigError::PathIsDirectory)));
    assert!(matches!(c.read_file(false, false, &lines), Err(ConfigError::PathNotFile)));
    assert_eq!(c.to_string(), "k = \"v\"");
    assert_eq!(c.path(), Some(vec![PathPart::Normal("dir".to_string())]));
}

#[test]
fn load_sets_the_path_and_reads_the_lines() {
    let lines = vec!["b = 2".to_string(), "a = 1".to_string()];
    let dir = PathPart::Normal("dir".to_string());
    let file = PathPart::Normal("file.cfg".to_string());
    let parts = vec![dir.copy(), PathPart::CurDir, file.copy()];
    let mut c = Config::new();
    assert!(c.load(&parts, true, false, &lines).is_ok());
    assert_eq!(c.path(), Some(vec![dir.copy(), file.copy()]));
    assert_eq!(c.to_string(), "a = \"1\"\nb = \"2\"");
    let mut d = Config::new();
    assert!(matches!(d.load(&parts, false, true, &lines), Err(ConfigError::PathIsDirectory)));
    assert_eq!(d.path(), Some(vec![dir, file]));
    assert_eq!(d.to_string(), "");
}

#[test]
fn the_store_is_written_one_pair_per_line() {
    let mut c = Config::new();
    c.set("a", "1");
    c.set("b", "two words");
    c.set("c", "");
    assert_eq!(c.to_string(), "c = \"\"\nb = \"two words\"\na = \"1\"");
    c.lineending = "\r\n";
    assert_eq!(c.to_string(), "c = \"\"\r\nb = \"two words\"\r\na = \"1\"");
    c.lineending = "\r";
    assert_eq!(c.to_string(), "c = \"\"\rb = \"two words\"\ra = \"1\"");
}

#[test]
fn quotation_marks_are_put_round_every_value() {
    let mut c = Config::new();
    c.set("k", "\"quoted\"");
    assert_eq!(c.to_string(), "k = \"\"quoted\"\"");
    c.set("k", "a\"b");
    assert_eq!(c.to_string(), "k = \"a\"b\"");
}

#[test]
fn keys_and_values_are_written_trimmed() {
    let mut c = Config::new();
    c.set(" k ", "  v  ");
    assert_eq!(c.to_string(), "k = \"v\"");
    assert_eq!(c.get(" k "), Some("  v  ".to_string()));
}

#[test]
fn a_written_store_reads_back_as_it_was() {
    let mut c = Config::new();
    c.set("video_on", "");
    c.set("video_mode", "x");
    c.set("path", "/some/where = here");
    c.set("quoted", "\"q\"");
    c.set("sp ace", "a  b");
    for ending in ["\n", "\r\n"] {
        c.lineending = ending;
        let mut back = Config::new();
        back.lineending = ending;
        back.insert_from_string(&c.to_string());
        assert_eq!(as_rev_list(&back.data), as_rev_list(&c.data));
        assert_eq!(back.to_string(), c.to_string());
    }
}

#[test]
fn a_written_line_reads_back_as_its_pair() {
    let mut c = Config::new();
    c.set("key", "value");
    assert_eq!(Config::parse_line(&c.to_string()), Some(pair("key", "value")));
    assert_eq!(Config::parse_line(&c.pair_text(" k ", " v ")), Some(pair("k", "v")));
}

#[test]
fn pair_text_shows_key_and_value() {
    let c = Config::new();
    assert_eq!(c.pair_text("k", "v"), "k = \"v\"");
    assert_eq!(c.pair_text(" k", "v "), "k = \"v\"");
}

#[test]
fn keys_list_text_has_one_key_per_line() {
    let mut c = Config::new();
    assert_eq!(c.keys_list_text(), "");
    c.set("a", "1");
    c.set("b", "2");
    assert_eq!(c.keys_list_text(), "b\na");
    c.lineending = "\r\n";
    assert_eq!(c.keys_list_text(), "b\r\na");
}
