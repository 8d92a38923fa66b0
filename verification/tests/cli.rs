use nova::toolchain::cli::{add_dependency_entry, new_project_main, new_project_manifest, parse_command, Command};

fn args(xs: &[&str]) -> Vec<String> {
    xs.iter().map(|s| s.to_string()).collect()
}

#[test]
fn command_missing_shows_help() {
    assert!(matches!(parse_command(&args(&["nebula"])), Ok(Command::Missing)));
}

#[test]
fn command_new_and_add_take_a_name() {
    assert!(matches!(parse_command(&args(&["nebula", "new", "demo"])), Ok(Command::New(n)) if n == "demo"));
    assert!(matches!(parse_command(&args(&["nebula", "add", "cosmos.stats"])), Ok(Command::Add(n)) if n == "cosmos.stats"));
    assert_eq!(parse_command(&args(&["nebula", "new"])).unwrap_err(), "Usage: nebula new <project-name>");
    assert_eq!(parse_command(&args(&["nebula", "add"])).unwrap_err(), "Usage: nebula add <constellation>");
}

#[test]
fn command_plain_commands() {
    assert!(matches!(parse_command(&args(&["nebula", "build"])), Ok(Command::Build)));
    assert!(matches!(parse_command(&args(&["nebula", "run"])), Ok(Command::Run)));
    assert!(matches!(parse_command(&args(&["nebula", "test"])), Ok(Command::Test)));
    assert!(matches!(parse_command(&args(&["nebula", "clean"])), Ok(Command::Clean)));
    assert!(matches!(parse_command(&args(&["nebula", "help"])), Ok(Command::Help)));
    assert!(matches!(parse_command(&args(&["nebula", "--help"])), Ok(Command::Help)));
    assert!(matches!(parse_command(&args(&["nebula", "-h"])), Ok(Command::Help)));
}

#[test]
fn command_unknown() {
    assert_eq!(
        parse_command(&args(&["nebula", "launch"])).unwrap_err(),
        "Unknown command: launch. Use 'nebula help' for usage."
    );
}

#[test]
fn new_project_files() {
    assert_eq!(
        new_project_manifest("demo"),
        "[package]\nname = \"demo\"\nversion = \"0.1.0\"\nauthors = [\"\"]\ndescription = \"\"\n\n[dependencies]\n"
    );
    assert_eq!(new_project_main(), "mission main() -> Void {\n    transmit(\"Hello from NOVA!\")\n}\n");
}

#[test]
fn dependency_is_appended_on_its_own_line() {
    let content = new_project_manifest("demo");
    let updated = add_dependency_entry(&content, "cosmos.stats").unwrap();
    assert_eq!(updated, format!("{}cosmos.stats = \"latest\"\n", content));
    assert_eq!(add_dependency_entry("[dependencies]", "x").unwrap(), "[dependencies]\nx = \"latest\"\n");
    assert_eq!(add_dependency_entry("", "x").unwrap(), "\nx = \"latest\"\n");
}

#[test]
fn dependency_already_present() {
    let content = "[dependencies]\ncosmos.stats = \"1.0\"\n";
    assert_eq!(add_dependency_entry(content, "cosmos.stats").unwrap_err(), "Dependency 'cosmos.stats' already exists");
}
