use swanling::cli::{CliArgs, CliError, VERSION};

fn args(list: &[&str]) -> Vec<String> {
    list.iter().map(|s| s.to_string()).collect()
}

#[test]
fn new_from_reads_pattern_then_path() {
    let parsed = CliArgs::new_from(args(&["grrs", "lorem", "notes.txt"])).unwrap();
    assert_eq!(parsed.pattern(), "lorem");
    assert_eq!(parsed.path(), "notes.txt");
    assert_eq!(parsed.version(), VERSION);
}

#[test]
fn new_from_equal_command_lines_give_equal_args() {
    let a = CliArgs::new_from(args(&["grrs", "p", "f"])).unwrap();
    let b = CliArgs::new_from(args(&["grrs", "p", "f"])).unwrap();
    assert_eq!(a, b);
}

#[test]
fn new_from_refuses_empty_pattern() {
    let err = CliArgs::new_from(args(&["grrs", "", "notes.txt"])).unwrap_err();
    assert!(matches!(err, CliError::InvalidPattern));
    assert_eq!(err.message(), "Invalid pattern.");
}

#[test]
fn new_from_refuses_missing_path() {
    let err = CliArgs::new_from(args(&["grrs", "lorem"])).unwrap_err();
    assert!(matches!(err, CliError::Usage(_)));
    let message = err.message();
    assert!(message.ends_with('\n'));
    assert!(message.len() > 1);
    match &err {
        CliError::Usage(report) => assert_eq!(&message, report),
        CliError::InvalidPattern => unreachable!(),
    }
}

#[test]
fn from_values_keeps_values() {
    let parsed = CliArgs::from_values("lorem".to_string(), "notes.txt".to_string()).unwrap();
    assert_eq!(parsed.pattern(), "lorem");
    assert_eq!(parsed.path(), "notes.txt");
    assert_eq!(parsed.version(), VERSION);
}

#[test]
fn from_values_refuses_empty_pattern() {
    let err = CliArgs::from_values(String::new(), "notes.txt".to_string()).unwrap_err();
    assert!(matches!(err, CliError::InvalidPattern));
}

#[test]
fn new_from_refuses_extra_arguments() {
    let err = CliArgs::new_from(args(&["grrs", "a", "b", "c"])).unwrap_err();
    assert!(matches!(err, CliError::Usage(_)));
}

#[test]
fn new_from_answers_help_with_usage() {
    let err = CliArgs::new_from(args(&["grrs", "--help"])).unwrap_err();
    assert!(matches!(err, CliError::Usage(_)));
}
