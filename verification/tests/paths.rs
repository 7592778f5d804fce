use reconf::normalize_path;
use reconf::path::copy_parts;
use reconf::Config;
use reconf::ConfigError;
use reconf::PathPart;
use reconf::PathPart::{CurDir, Normal, ParentDir, Prefix, RootDir};

fn name(s: &str) -> PathPart {
    Normal(s.to_string())
}

#[test]
fn the_directory_itself_is_dropped() {
    assert_eq!(normalize_path(&vec![CurDir, name("a"), CurDir, name("b")]), vec![name("a"), name("b")]);
    assert_eq!(normalize_path(&vec![CurDir]), vec![]);
}

#[test]
fn the_directory_above_takes_back_a_name() {
    assert_eq!(
        normalize_path(&vec![RootDir, name("a"), name("b"), ParentDir, name("c")]),
        vec![RootDir, name("a"), name("c")]
    );
    assert_eq!(normalize_path(&vec![name("a"), ParentDir]), vec![]);
    assert_eq!(normalize_path(&vec![name("a"), ParentDir, ParentDir, name("b")]), vec![name("b")]);
}

#[test]
fn nothing_is_above_the_root() {
    assert_eq!(normalize_path(&vec![RootDir, ParentDir, name("a")]), vec![RootDir, name("a")]);
    assert_eq!(normalize_path(&vec![ParentDir, ParentDir]), vec![]);
    assert_eq!(
        normalize_path(&vec![Prefix("C:".to_string()), ParentDir, name("a")]),
        vec![Prefix("C:".to_string()), name("a")]
    );
}

#[test]
fn a_root_starts_the_path_anew_behind_the_prefix() {
    assert_eq!(
        normalize_path(&vec![Prefix("C:".to_string()), RootDir, name("a")]),
        vec![Prefix("C:".to_string()), RootDir, name("a")]
    );
    assert_eq!(normalize_path(&vec![name("a"), RootDir, name("b")]), vec![RootDir, name("b")]);
    assert_eq!(
        normalize_path(&vec![name("a"), Prefix("D:".to_string()), name("b")]),
        vec![Prefix("D:".to_string()), name("b")]
    );
}

#[test]
fn an_empty_path_stays_empty() {
    assert_eq!(normalize_path(&Vec::new()), Vec::<PathPart>::new());
}

#[test]
fn a_copy_is_equal() {
    for part in [Prefix("C:".to_string()), RootDir, CurDir, ParentDir, name("n")] {
        assert_eq!(part.copy(), part);
    }
}

#[test]
fn copies_of_components_are_equal() {
    let parts = vec![RootDir, name("a"), ParentDir, CurDir, Prefix("C:".to_string())];
    assert_eq!(copy_parts(&parts), parts);
    assert_eq!(copy_parts(&Vec::new()), Vec::<PathPart>::new());
}

#[test]
fn set_path_stores_the_normal_form() {
    let mut c = Config::new();
    assert_eq!(c.path(), None);
    c.set_path(&vec![RootDir, name("etc"), CurDir, name("retro"), ParentDir, name("retroarch.cfg")]);
    assert_eq!(c.path(), Some(vec![RootDir, name("etc"), name("retroarch.cfg")]));
    c.set_path(&vec![name("a"), name("b"), ParentDir, ParentDir, name("c.cfg")]);
    assert_eq!(c.path(), Some(vec![name("c.cfg")]));
    c.set_path(&vec![ParentDir, name("x")]);
    assert_eq!(c.path(), Some(vec![name("x")]));
    c.set_path(&vec![RootDir, ParentDir]);
    assert_eq!(c.path(), Some(vec![RootDir]));
    c.set_path(&Vec::new());
    assert_eq!(c.path(), Some(Vec::new()));
}

#[test]
fn set_path_leaves_the_entries_alone() {
    let mut c = Config::new();
    c.set("a", "1");
    c.set_path(&vec![name("file.cfg")]);
    assert_eq!(c.to_string(), "a = \"1\"");
}

#[test]
fn a_file_can_be_read() {
    let mut c = Config::new();
    c.set_path(&vec![name("some"), name("file.cfg")]);
    assert!(c.check_read(true, false).is_ok());
}

#[test]
fn a_directory_cannot_be_read() {
    let mut c = Config::new();
    c.set_path(&vec![name("some"), name("dir")]);
    assert!(matches!(c.check_read(false, true), Err(ConfigError::PathIsDirectory)));
    let error = c.check_read(false, true).unwrap_err();
    assert_eq!(error.to_string(), "Path is a directory.");
}

#[test]
fn what_is_no_file_cannot_be_read() {
    let mut c = Config::new();
    c.set_path(&vec![name("missing.cfg")]);
    assert!(matches!(c.check_read(false, false), Err(ConfigError::PathNotFile)));
    let error = c.check_read(false, false).unwrap_err();
    assert_eq!(error.to_string(), "Path not a file.");
}

#[test]
fn a_store_without_a_path_is_neither_read_nor_written() {
    let c = Config::new();
    assert!(matches!(c.check_read(true, false), Err(ConfigError::NoPathSet)));
    assert!(matches!(c.check_read(false, true), Err(ConfigError::NoPathSet)));
    assert!(matches!(c.check_write(false), Err(ConfigError::NoPathSet)));
    assert!(matches!(c.check_write(true), Err(ConfigError::NoPathSet)));
    assert_eq!(c.check_write(false).unwrap_err().to_string(), "No path set.");
}

#[test]
fn a_directory_cannot_be_written() {
    let mut c = Config::new();
    c.set_path(&vec![RootDir, name("tmp")]);
    assert!(c.check_write(false).is_ok());
    assert!(matches!(c.check_write(true), Err(ConfigError::PathIsDirectory)));
}
