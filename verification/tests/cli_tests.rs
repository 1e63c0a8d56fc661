use adp_trafic_aerien::cli::{arg_value, parse_command, text_eq, Command};

fn args(v: &[&str]) -> Vec<String> {
    v.iter().map(|s| s.to_string()).collect()
}

#[test]
fn arg_value_takes_the_following_argument() {
    let a = args(&["prog", "load-data", "--data-dir", "mon_dossier"]);
    assert_eq!(arg_value(&a, "--data-dir", "data"), "mon_dossier");
}

#[test]
fn arg_value_defaults() {
    assert_eq!(arg_value(&args(&["prog", "load-data"]), "--data-dir", "data"), "data");
    assert_eq!(arg_value(&args(&["prog", "load-data", "--data-dir"]), "--data-dir", "data"), "data");
    assert_eq!(arg_value(&args(&[]), "--schema", "schema.sql"), "schema.sql");
}

#[test]
fn arg_value_first_occurrence_wins() {
    let a = args(&["p", "init-db", "--schema", "a.sql", "--schema", "b.sql"]);
    assert_eq!(arg_value(&a, "--schema", "schema.sql"), "a.sql");
}

#[test]
fn commands_are_recognised() {
    assert_eq!(parse_command(&args(&["p"])), Command::Missing);
    assert_eq!(parse_command(&args(&[])), Command::Missing);
    assert_eq!(
        parse_command(&args(&["p", "init-db"])),
        Command::InitDb { schema: "schema.sql".to_string() }
    );
    assert_eq!(
        parse_command(&args(&["p", "init-db", "--schema", "s.sql"])),
        Command::InitDb { schema: "s.sql".to_string() }
    );
    assert_eq!(
        parse_command(&args(&["p", "load-data", "--data-dir", "d"])),
        Command::LoadData { data_dir: "d".to_string() }
    );
    assert_eq!(parse_command(&args(&["p", "load-data"])), Command::LoadData { data_dir: "data".to_string() });
    assert_eq!(parse_command(&args(&["p", "mission1"])), Command::Mission1);
    assert_eq!(parse_command(&args(&["p", "-h"])), Command::Help);
    assert_eq!(parse_command(&args(&["p", "--help"])), Command::Help);
    assert_eq!(parse_command(&args(&["p", "serve"])), Command::Unknown { name: "serve".to_string() });
}

#[test]
fn text_equality() {
    assert!(text_eq("abc", "abc"));
    assert!(!text_eq("abc", "abd"));
    assert!(!text_eq("abc", "ab"));
    assert!(text_eq("", ""));
}
