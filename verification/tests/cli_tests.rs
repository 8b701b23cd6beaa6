use mcdp_language::cli::{help_text, startup_mode, version_text, StartupMode, PACKAGE_VERSION};

fn args(values: &[&str]) -> Vec<String> {
    values.iter().map(|value| (*value).to_owned()).collect()
}

#[test]
fn starts_server_without_arguments() {
    assert_eq!(startup_mode(&[]), StartupMode::Server);
}

#[test]
fn recognizes_version_flags() {
    assert_eq!(startup_mode(&args(&["--version"])), StartupMode::Version);
    assert_eq!(startup_mode(&args(&["-V"])), StartupMode::Version);
    assert_eq!(version_text(), format!("mcdp-lsp {}", PACKAGE_VERSION));
}

#[test]
fn recognizes_help_flags() {
    assert_eq!(startup_mode(&args(&["--help"])), StartupMode::Help);
    assert_eq!(startup_mode(&args(&["-h"])), StartupMode::Help);
}

#[test]
fn rejects_unknown_or_extra_arguments() {
    assert_eq!(
        startup_mode(&args(&["--bogus"])),
        StartupMode::Error("error: unknown argument `--bogus`".to_owned())
    );
    assert_eq!(
        startup_mode(&args(&["--version", "--help"])),
        StartupMode::Error("error: expected at most one argument".to_owned())
    );
}

#[test]
fn help_text_lists_both_flags() {
    assert!(help_text().starts_with("Usage: mcdp-lsp [--version]\n"));
    assert!(help_text().contains("-V, --version"));
    assert!(help_text().contains("-h, --help"));
}
