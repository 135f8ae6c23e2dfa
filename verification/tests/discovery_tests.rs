use directive_reducer::config::{validate_config, Config};
use directive_reducer::discover::{is_target_path, select_targets, DirEntryInfo};
use directive_reducer::errors::RunError;

fn b(s: &str) -> Vec<u8> {
    s.as_bytes().to_vec()
}

fn entry(path: &str, is_file: bool) -> DirEntryInfo {
    DirEntryInfo { path: b(path), is_file }
}

#[test]
fn extensions_rs_and_fixed_are_targets() {
    assert!(is_target_path(&b("tests/foo.rs")));
    assert!(is_target_path(&b("tests/foo.fixed")));
    assert!(is_target_path(&b("a/b.c.rs")));
    assert!(is_target_path(&b("foo.rs")));
}

#[test]
fn other_paths_are_not_targets() {
    assert!(!is_target_path(&b("tests/foo.txt")));
    assert!(!is_target_path(&b("tests/foo")));
    assert!(!is_target_path(&b("tests/.rs")));
    assert!(!is_target_path(&b(".rs")));
    assert!(!is_target_path(&b("a.rs/b")));
    assert!(!is_target_path(&b("tests/foo.RS")));
    assert!(!is_target_path(&b("tests/foo.")));
    assert!(!is_target_path(&b("")));
}

#[test]
fn selection_sorts_dedups_and_filters() {
    let entries = vec![
        entry("tests/z.rs", true),
        entry("tests", false),
        entry("tests/a.fixed", true),
        entry("tests/notes.md", true),
        entry("tests/z.rs", true),
        entry("tests/dir.rs", false),
        entry("tests/m.rs", true),
    ];
    let got = select_targets(&entries);
    let want = vec![b("tests/a.fixed"), b("tests/m.rs"), b("tests/z.rs")];
    assert_eq!(got, want);
}

#[test]
fn selection_of_nothing_is_empty() {
    let entries: Vec<DirEntryInfo> = Vec::new();
    assert!(select_targets(&entries).is_empty());
    let entries = vec![entry("a/b.txt", true), entry("a", false)];
    assert!(select_targets(&entries).is_empty());
}

#[test]
fn discovery_is_deterministic_across_runs() {
    let make = || {
        vec![
            entry("t/b.rs", true),
            entry("t/a.rs", true),
            entry("t/c.fixed", true),
            entry("t/a.rs", true),
        ]
    };
    let first = select_targets(&make());
    let second = select_targets(&make());
    assert_eq!(first, second);
    assert_eq!(first, vec![b("t/a.rs"), b("t/b.rs"), b("t/c.fixed")]);
}

#[test]
fn merge_across_directories_has_set_semantics() {
    // the same file reached from two walked directories appears once
    let mut entries = vec![entry("root/x/f.rs", true), entry("root/x/g.rs", true)];
    entries.push(entry("root/x/f.rs", true));
    let got = select_targets(&entries);
    assert_eq!(got, vec![b("root/x/f.rs"), b("root/x/g.rs")]);
}

#[test]
fn empty_target_set_is_a_warning_level_configuration_error() {
    let config = Config { target_directories: Vec::new() };
    let err = validate_config(&config).unwrap_err();
    assert_eq!(err, RunError::EmptyTargetSet);
    assert!(err.is_warning());
}

#[test]
fn nonempty_target_set_passes_validation() {
    let config = Config { target_directories: vec![b("tests/ui")] };
    assert!(validate_config(&config).is_ok());
}

#[test]
fn default_config_names_no_directories() {
    let config = Config::default();
    assert!(config.target_directories.is_empty());
    assert!(validate_config(&config).is_err());
}
