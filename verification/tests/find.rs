use reconf::pattern::{
    create_regex, create_value_regex, retain_hits, try_create_regex, try_create_value_regex,
};
use reconf::Config;
use reconf::ConfigError;

fn pair(k: &str, v: &str) -> (String, String) {
    (k.to_string(), v.to_string())
}

fn video() -> Config {
    let mut c = Config::new();
    c.set("video_on", "");
    c.set("video_mode", "x");
    c
}

#[test]
fn an_empty_value_pattern_selects_empty_values() {
    let c = video();
    assert_eq!(c.find("^v", ""), vec![pair("video_on", "")]);
    assert_eq!(c.find_by_value(""), vec![pair("video_on", "")]);
}

#[test]
fn find_wants_key_and_value_to_match() {
    let mut c = video();
    c.set("audio_mode", "x");
    c.set("video_size", "xl");
    assert_eq!(c.find("^video", "^x"), vec![pair("video_size", "xl"), pair("video_mode", "x")]);
    assert_eq!(c.find("^video", "^x$"), vec![pair("video_mode", "x")]);
    assert_eq!(c.find("audio", "y"), Vec::<(String, String)>::new());
}

#[test]
fn find_by_key_matches_anywhere_in_the_key() {
    let mut c = video();
    c.set("audio_mode", "y");
    assert_eq!(c.find_by_key("mode"), vec![pair("audio_mode", "y"), pair("video_mode", "x")]);
    assert_eq!(c.find_by_key("").len(), 3);
    assert_eq!(c.find_by_key("^$").len(), 0);
}

#[test]
fn find_by_value_matches_the_value_only() {
    let mut c = video();
    c.set("x", "video");
    assert_eq!(c.find_by_value("x"), vec![pair("video_mode", "x")]);
    assert_eq!(c.find_by_value("^vid"), vec![pair("x", "video")]);
}

#[test]
fn results_come_in_output_order() {
    let mut c = Config::new();
    c.insert_from_string("a1 = 1\na2 = 2\na3 = 3");
    assert_eq!(c.find_by_key("^a"), vec![pair("a1", "1"), pair("a2", "2"), pair("a3", "3")]);
    c.sort();
    c.set("a0", "0");
    assert_eq!(c.find_by_key("a[03]"), vec![pair("a0", "0"), pair("a3", "3")]);
}

#[test]
fn a_query_leaves_the_store_as_it_was() {
    let c = video();
    let before = c.to_string();
    let _ = c.find("o", "");
    let _ = c.query(Some("("), None, false);
    assert_eq!(c.to_string(), before);
}

#[test]
fn a_refused_pattern_is_an_error() {
    match try_create_regex("foo(bar") {
        Err(ConfigError::InvalidRegex { pattern, message }) => {
            assert_eq!(pattern, "foo(bar");
            assert!(!message.is_empty());
        }
        other => panic!("{:?}", other),
    }
    assert!(matches!(try_create_regex("["), Err(ConfigError::InvalidRegex { .. })));
    match try_create_value_regex("a{2") {
        Err(ConfigError::InvalidRegex { pattern, .. }) => assert_eq!(pattern, "a{2"),
        other => panic!("{:?}", other),
    }
    match try_create_value_regex("*") {
        Err(ConfigError::InvalidRegex { pattern, .. }) => assert_eq!(pattern, "*"),
        other => panic!("{:?}", other),
    }
}

#[test]
fn an_error_names_the_pattern_and_the_reason() {
    let error = try_create_regex("a(").unwrap_err();
    let expected = regex::Regex::new("a(").unwrap_err().to_string();
    match &error {
        ConfigError::InvalidRegex { message, .. } => assert_eq!(message, &expected),
        other => panic!("{:?}", other),
    }
    assert_eq!(
        error.to_string(),
        format!("Error! Regex pattern for key is not correct: a(\n{}", expected)
    );
}

#[test]
fn create_regex_compiles_a_pattern() {
    let re = create_regex("^a+b$");
    assert_eq!(re.as_str(), "^a+b$");
    assert!(re.is_match("aab"));
    assert!(!re.is_match("ba"));
    let tried = try_create_regex("^a+b$").unwrap();
    assert_eq!(tried.as_str(), "^a+b$");
    let empty = create_value_regex("");
    assert_eq!(empty.as_str(), "^$");
    let given = create_value_regex("x");
    assert_eq!(given.as_str(), "x");
    assert_eq!(try_create_value_regex("").unwrap().as_str(), "^$");
    assert_eq!(try_create_value_regex("y").unwrap().as_str(), "y");
}

#[test]
fn retain_hits_keeps_the_marked_pairs() {
    let list = vec![pair("a", "1"), pair("b", "2"), pair("c", "3")];
    assert_eq!(retain_hits(&list, &vec![true, false, true]), vec![pair("a", "1"), pair("c", "3")]);
    assert_eq!(retain_hits(&list, &vec![false, false, false]), Vec::<(String, String)>::new());
    assert_eq!(retain_hits(&list, &vec![true, true, true]), list);
    assert_eq!(retain_hits(&list, &vec![false, true]), vec![pair("b", "2")]);
    assert_eq!(retain_hits(&list, &vec![true, true, true, true]), list);
    assert_eq!(retain_hits(&Vec::new(), &vec![true]), Vec::<(String, String)>::new());
}
