use reconf::command::{forced_line_ending, views_of_both, views_of_one, Edits, Shown};
use reconf::Config;
use reconf::ConfigError;

fn pair(k: &str, v: &str) -> (String, String) {
    (k.to_string(), v.to_string())
}

fn store(pairs: &[(&str, &str)]) -> Config {
    let mut c = Config::new();
    for (k, v) in pairs {
        c.set(k, v);
    }
    c
}

fn no_edits() -> Edits {
    Edits { sort: false, set: vec![], replace: vec![], delete: vec![] }
}

fn key(s: &str) -> Shown {
    Shown::Key(s.to_string())
}

fn value(s: &str) -> Shown {
    Shown::Value(s.to_string())
}

fn line(k: &str, v: &str) -> Shown {
    Shown::Pair(k.to_string(), v.to_string())
}

#[test]
fn the_flags_force_a_line_ending() {
    assert_eq!(forced_line_ending(false, false, false), None);
    assert_eq!(forced_line_ending(true, false, false), Some("\n"));
    assert_eq!(forced_line_ending(false, true, false), Some("\r"));
    assert_eq!(forced_line_ending(true, true, false), Some("\r\n"));
    assert_eq!(forced_line_ending(false, false, true), Some("\r\n"));
    assert_eq!(forced_line_ending(true, false, true), Some("\r\n"));
    assert_eq!(forced_line_ending(false, true, true), Some("\r\n"));
    assert_eq!(forced_line_ending(true, true, true), Some("\r\n"));
}

#[test]
fn updates_come_in_first_to_last() {
    let mut c = store(&[("a", "1"), ("b", "2")]);
    let updates = vec![store(&[("a", "10"), ("c", "30")]), store(&[("c", "31"), ("d", "40")])];
    c.style = 4;
    c.apply_updates(&updates);
    assert_eq!(c.style, 4);
    assert_eq!(c.get("a"), Some("10".to_string()));
    assert_eq!(c.get("b"), Some("2".to_string()));
    assert_eq!(c.get("c"), Some("31".to_string()));
    assert_eq!(c.list_keys(), vec!["d", "c", "b", "a"]);
}

#[test]
fn without_updates_nothing_changes() {
    let mut c = store(&[("a", "1")]);
    c.apply_updates(&Vec::new());
    assert_eq!(c.style, 0);
    assert_eq!(c.list_keys(), vec!["a"]);
}

#[test]
fn no_edits_change_nothing() {
    let mut c = store(&[("b", "2"), ("a", "1")]);
    c.apply_edits(&no_edits());
    assert_eq!(c.list_keys(), vec!["a", "b"]);
}

#[test]
fn edits_are_made_in_their_order() {
    // set comes before replace, replace before delete
    let mut c = store(&[("a", "old"), ("b", "2")]);
    let edits = Edits {
        sort: false,
        set: vec![pair("a", "x-x"), pair("n", "x"), pair("gone", "x")],
        replace: vec![
            (String::from("a"), String::from("x"), String::from("y")),
            (String::from("n"), String::from("x"), String::from("z")),
            (String::from("gone"), String::from("x"), String::from("w")),
            (String::from("absent"), String::from("x"), String::from("w")),
        ],
        delete: vec![String::from("gone"), String::from("never")],
    };
    c.apply_edits(&edits);
    assert_eq!(c.get("a"), Some("y-y".to_string()));
    assert_eq!(c.get("n"), Some("z".to_string()));
    assert_eq!(c.get("gone"), None);
    assert_eq!(c.get("absent"), None);
    assert_eq!(c.list_keys(), vec!["n", "b", "a"]);
}

#[test]
fn sorting_comes_after_the_edits() {
    let mut c = store(&[("m", "1"), ("a", "2"), ("z", "3")]);
    let edits = Edits {
        sort: true,
        set: vec![pair("k", "4"), pair("a", "5")],
        delete: vec![String::from("m")],
        ..no_edits()
    };
    c.apply_edits(&edits);
    assert_eq!(c.list_keys(), vec!["a", "k", "z"]);
    assert_eq!(c.list_values(), vec!["5", "4", "3"]);
}

#[test]
fn taking_keys_out_leaves_the_others_in_order() {
    let mut c = store(&[("a", "1"), ("b", "2"), ("c", "3"), ("d", "4")]);
    let edits = Edits { delete: vec![String::from("a"), String::from("c")], ..no_edits() };
    c.apply_edits(&edits);
    assert_eq!(c.list_keys(), vec!["d", "b"]);
}

#[test]
fn a_later_swap_sees_the_earlier_one() {
    let mut c = store(&[("k", "aaa")]);
    let edits = Edits {
        replace: vec![
            (String::from("k"), String::from("a"), String::from("b")),
            (String::from("k"), String::from("bb"), String::from("c")),
        ],
        ..no_edits()
    };
    c.apply_edits(&edits);
    assert_eq!(c.get("k"), Some("cb".to_string()));
}

#[test]
fn get_all_skips_the_keys_that_are_not_there() {
    let c = store(&[("a", "1"), ("b", "2")]);
    let keys = vec!["b".to_string(), "x".to_string(), "a".to_string(), "b".to_string()];
    assert_eq!(c.get_all(&keys), vec!["2", "1", "2"]);
    assert_eq!(c.get_all(&Vec::new()), Vec::<String>::new());
}

#[test]
fn both_patterns_print_the_pairs_that_match_both() {
    let c = store(&[("video_on", ""), ("video_mode", "x"), ("audio", "x")]);
    assert_eq!(c.query(Some("^v"), Some("x"), false).unwrap(), vec![line("video_mode", "x")]);
    assert_eq!(
        c.query(Some("^v"), Some("x"), true).unwrap(),
        vec![key("video_mode"), value("x")]
    );
    assert_eq!(c.query(Some("^v"), Some(""), false).unwrap(), vec![line("video_on", "")]);
}

#[test]
fn no_pattern_prints_the_keys_in_list_mode_only() {
    let c = store(&[("a", "1")]);
    assert_eq!(c.query(None, None, true).unwrap(), vec![Shown::KeysList]);
    assert_eq!(c.query(None, None, false).unwrap(), vec![]);
}

#[test]
fn one_pattern_prints_what_it_selects() {
    let c = store(&[("video_on", ""), ("video_mode", "x"), ("audio", "x")]);
    assert_eq!(
        c.query(Some("video"), None, false).unwrap(),
        vec![line("video_mode", "x"), line("video_on", "")]
    );
    assert_eq!(c.query(Some("video"), None, true).unwrap(), vec![key("video_mode"), key("video_on")]);
    assert_eq!(
        c.query(None, Some("x"), false).unwrap(),
        vec![line("audio", "x"), line("video_mode", "x")]
    );
    assert_eq!(c.query(None, Some("x"), true).unwrap(), vec![value("x"), value("x")]);
    assert_eq!(c.query(None, Some(""), true).unwrap(), vec![value("")]);
}

#[test]
fn a_refused_pattern_stops_the_query() {
    let c = store(&[("a", "1")]);
    for (k, v, refused) in [
        (Some("("), Some("x"), "("),
        (Some("a"), Some(")"), ")"),
        (Some("("), Some(")"), "("),
        (Some("["), None, "["),
        (None, Some("*"), "*"),
    ] {
        match c.query(k, v, false) {
            Err(ConfigError::InvalidRegex { pattern, .. }) => assert_eq!(pattern, refused),
            other => panic!("{:?}", other),
        }
    }
}

#[test]
fn views_are_made_of_what_was_found() {
    let found = vec![pair("a", "1"), pair("b", "2")];
    assert_eq!(views_of_both(&found, false), vec![line("a", "1"), line("b", "2")]);
    assert_eq!(views_of_both(&found, true), vec![key("a"), value("1"), key("b"), value("2")]);
    assert_eq!(views_of_one(&found, false, true), vec![line("a", "1"), line("b", "2")]);
    assert_eq!(views_of_one(&found, false, false), vec![line("a", "1"), line("b", "2")]);
    assert_eq!(views_of_one(&found, true, true), vec![key("a"), key("b")]);
    assert_eq!(views_of_one(&found, true, false), vec![value("1"), value("2")]);
    assert_eq!(views_of_both(&Vec::new(), true), vec![]);
}

#[test]
fn a_store_goes_through_updates_edits_and_views_in_order() {
    let mut c = store(&[("a", "1"), ("b", "2")]);
    let updates = vec![store(&[("a", "10"), ("u", "20")])];
    let edits = Edits {
        sort: true,
        set: vec![pair("z", "9"), pair("u", "21")],
        replace: vec![(String::from("a"), String::from("0"), String::from("!"))],
        delete: vec![String::from("b")],
    };
    let wanted = vec!["a".to_string(), "b".to_string(), "u".to_string()];
    let (values, views) = c.process(&updates, &edits, &wanted, Some("^[az]$"), None, false).unwrap();
    assert_eq!(c.list_keys(), vec!["a", "u", "z"]);
    assert_eq!(values, vec!["1!", "21"]);
    assert_eq!(views, vec![line("a", "1!"), line("z", "9")]);
}

#[test]
fn a_refused_pattern_leaves_the_edits_made() {
    let mut c = store(&[("a", "1")]);
    let edits = Edits { set: vec![pair("b", "2")], ..no_edits() };
    match c.process(&Vec::new(), &edits, &Vec::new(), Some("("), None, true) {
        Err(ConfigError::InvalidRegex { pattern, message }) => {
            assert_eq!(pattern, "(");
            assert_eq!(message, regex::Regex::new("(").unwrap_err().to_string());
        }
        other => panic!("{:?}", other),
    }
    assert_eq!(c.list_keys(), vec!["b", "a"]);
}
