use sweep::cmd::Cmd;

#[test]
fn test_cmd() {
    let cmd = Cmd::new("cargo".to_string(), vec!["Cargo.toml".to_string()]);
    assert_eq!(cmd.name, "cargo");
    assert_eq!(cmd.related_files, vec!["Cargo.toml".to_string()]);
}

#[test]
fn test_special_clean_commands() {
    let nodejs_cmd = Cmd::new("nodejs".to_string(), vec!["package.json".to_string()]);
    let cargo_cmd = Cmd::new("cargo".to_string(), vec!["Cargo.toml".to_string()]);

    assert!(nodejs_cmd.is_special_clean_command());
    assert!(!cargo_cmd.is_special_clean_command());
}
