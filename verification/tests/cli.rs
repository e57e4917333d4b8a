use peek_codex::cli::{parse_args, Action, RawArgument};

fn arguments(values: &[&str]) -> Vec<RawArgument<String>> {
    values
        .iter()
        .map(|value| RawArgument {
            text: Some((*value).to_owned()),
            raw: (*value).to_owned(),
        })
        .collect()
}

#[test]
fn parses_public_cli() {
    let options = parse_args(arguments(&["--log-file", "/tmp/slice.log"])).unwrap();
    assert_eq!(options.action, Action::Run);
    assert_eq!(options.log_file, Some("/tmp/slice.log".to_owned()));
}

#[test]
fn rejects_unknown_options() {
    let error = parse_args(arguments(&["--resume"])).unwrap_err();
    assert!(error.contains("unknown option"));
}

#[test]
fn reports_each_command_line_error() {
    assert_eq!(
        parse_args(arguments(&["--resume"])).unwrap_err(),
        "unknown option `--resume`; run `peek-codex --help`"
    );
    assert_eq!(
        parse_args(arguments(&["--log-file"])).unwrap_err(),
        "--log-file requires a path; run `peek-codex --help`"
    );
    assert_eq!(
        parse_args(arguments(&["--log-file", "a", "--log-file", "b"])).unwrap_err(),
        "--log-file may only be provided once"
    );
    let invalid = vec![RawArgument {
        text: None,
        raw: "x".to_owned(),
    }];
    assert_eq!(
        parse_args(invalid).unwrap_err(),
        "arguments must be valid UTF-8"
    );
}

#[test]
fn the_last_of_help_and_version_wins() {
    assert_eq!(parse_args(arguments(&["-h"])).unwrap().action, Action::Help);
    assert_eq!(
        parse_args(arguments(&["--help", "-V"])).unwrap().action,
        Action::Version
    );
    assert_eq!(
        parse_args(arguments(&["--version", "--help"])).unwrap().action,
        Action::Help
    );
    let options = parse_args(arguments(&[])).unwrap();
    assert_eq!(options.action, Action::Run);
    assert_eq!(options.log_file, None);
    let non_utf8_path = vec![
        RawArgument {
            text: Some("--log-file".to_owned()),
            raw: "--log-file".to_owned(),
        },
        RawArgument {
            text: None,
            raw: "raw-path".to_owned(),
        },
    ];
    assert_eq!(
        parse_args(non_utf8_path).unwrap().log_file,
        Some("raw-path".to_owned())
    );
}
