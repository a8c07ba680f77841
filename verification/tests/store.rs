use laminaria_run::store::run_dir;
use laminaria_run::types::{env_overrides_from, SCHEMA_VERSION};

#[test]
fn a_run_lives_in_its_own_directory() {
    assert_eq!(run_dir("/runs", "r-1"), "/runs/r-1");
    assert_eq!(run_dir("/runs/", "r-1"), "/runs/r-1");
    assert_eq!(SCHEMA_VERSION, "0.1.0");
}

#[test]
fn env_overrides_are_key_ordered_and_the_last_value_wins() {
    let pairs = vec![
        ("RUSTC".to_string(), "/a".to_string()),
        ("PATH".to_string(), "/bin".to_string()),
        ("RUSTC".to_string(), "/b".to_string()),
    ];
    assert_eq!(
        env_overrides_from(&pairs),
        vec![("PATH".to_string(), "/bin".to_string()), ("RUSTC".to_string(), "/b".to_string())]
    );
    assert!(env_overrides_from(&vec![]).is_empty());
}
