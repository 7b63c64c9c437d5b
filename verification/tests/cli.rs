use kumo::cli::{parse_command, Command, HELP, NOT_SET_UP};

fn arguments(words: &[&str]) -> Vec<String> {
    words.iter().map(|word| (*word).to_owned()).collect()
}

#[test]
fn help_and_version_are_available_without_configuration() {
    assert_eq!(parse_command(&arguments(&["--help"])), Ok(Command::Help));
    assert!(HELP.contains("Kumo personal agent gateway"));

    assert_eq!(
        parse_command(&arguments(&["--version"])),
        Ok(Command::Version)
    );
}

#[test]
fn invalid_cli_input_fails_with_usage_guidance() {
    let error = parse_command(&arguments(&["unknown"])).unwrap_err();
    assert!(error.contains("unknown command 'unknown'"));
    assert!(error.contains("kumo --help"));
}

#[test]
fn status_reports_an_unconfigured_isolated_home() {
    assert!(NOT_SET_UP.contains("Config:    not set up yet"));
}
