use provenex_ingest::cli::{
    first_target, parse_command, parse_common, parse_listen_args, parse_watch_args, CliError,
    Command, Config, Environment, Flag, Mode, Options, Target, DEFAULT_FEEDBACK_URL,
    DEFAULT_UPSTREAM,
};
use provenex_ingest::text::{decimal_text, parse_number, NumberError};

fn args(list: &[&str]) -> Vec<String> {
    list.iter().map(|s| s.to_string()).collect()
}

fn no_env() -> Environment {
    Environment {
        upstream: None,
        api_key: None,
        salt: None,
        mode: None,
        no_feedback: None,
        feedback_url: None,
    }
}

fn common(env: &Environment, list: &[&str]) -> Result<(Config, Vec<String>), CliError> {
    parse_common(env, &args(list), "1.2.3")
}

fn words(r: Result<(Config, Vec<String>), CliError>) -> String {
    match r {
        Ok(_) => panic!("accepted"),
        Err(e) => e.message(),
    }
}

#[test]
fn parse_watch_args_handles_interval_before_directory() {
    let (dir, interval) =
        parse_watch_args(vec!["--interval".into(), "2".into(), "captures/".into()]).unwrap();
    assert_eq!(dir, "captures/");
    assert_eq!(interval, 2);

    let (dir, interval) =
        parse_watch_args(vec!["captures/".into(), "--interval".into(), "9".into()]).unwrap();
    assert_eq!(dir, "captures/");
    assert_eq!(interval, 9);

    assert!(parse_watch_args(vec!["--interval".into(), "2".into()]).is_err());
}

#[test]
fn watch_takes_the_first_plain_argument_for_the_directory() {
    assert_eq!(
        parse_watch_args(args(&["a", "b", "-c"])).unwrap(),
        ("a".to_string(), 5)
    );
    assert_eq!(
        parse_watch_args(args(&["--interval", "1", "a", "--interval", "+7"])).unwrap(),
        ("a".to_string(), 7)
    );
    let e = parse_watch_args(args(&["a", "--verbose"])).unwrap_err();
    assert_eq!(e.message(), "watch: unknown option `--verbose`");
    let e = parse_watch_args(args(&["a", "--interval"])).unwrap_err();
    assert_eq!(e.message(), "--interval requires a value");
    let e = parse_watch_args(args(&["--interval", "soon", "a"])).unwrap_err();
    assert_eq!(e.message(), "--interval: invalid digit found in string");
    let e = parse_watch_args(args(&[])).unwrap_err();
    assert_eq!(e.message(), "watch requires a directory argument");
}

#[test]
fn common_options_default_to_the_public_service() {
    let (config, rest) = common(&no_env(), &["trace.otlp.json", "--api-key", "k"]).unwrap();
    assert_eq!(config.upstream, DEFAULT_UPSTREAM);
    assert_eq!(config.upstream, "https://api.provenex.ai");
    assert_eq!(config.api_key, "k");
    assert_eq!(config.salt, "");
    assert_eq!(config.mode, Mode::Plain);
    assert_eq!(config.concurrent, 4);
    assert_eq!(config.report, None);
    assert!(!config.feedback);
    assert_eq!(config.feedback_url, DEFAULT_FEEDBACK_URL);
    assert_eq!(config.feedback_url, "https://signup.provenex.ai/verdict-feedback");
    assert_eq!(config.binary_version, "1.2.3");
    assert_eq!(rest, args(&["trace.otlp.json"]));
}

#[test]
fn the_command_line_overrides_the_environment_and_the_last_value_counts() {
    let env = Environment {
        upstream: Some("http://env".into()),
        api_key: Some("env-key".into()),
        salt: Some("env-salt".into()),
        mode: Some("HASH".into()),
        no_feedback: None,
        feedback_url: Some("http://feedback".into()),
    };
    let (config, rest) = common(&env, &[]).unwrap();
    assert_eq!(config.upstream, "http://env");
    assert_eq!(config.api_key, "env-key");
    assert_eq!(config.salt, "env-salt");
    assert_eq!(config.mode, Mode::Hash);
    assert_eq!(config.feedback_url, "http://feedback");
    assert!(rest.is_empty());

    let (config, rest) = common(
        &env,
        &[
            "--upstream", "http://a", "x", "--upstream", "http://b", "--api-key", "c", "--salt",
            "d", "--mode", "Plain", "--concurrent", "9", "--report", "r.html", "--bind", "y",
        ],
    )
    .unwrap();
    assert_eq!(config.upstream, "http://b");
    assert_eq!(config.api_key, "c");
    assert_eq!(config.salt, "d");
    assert_eq!(config.mode, Mode::Plain);
    assert_eq!(config.concurrent, 9);
    assert_eq!(config.report.as_deref(), Some("r.html"));
    assert_eq!(rest, args(&["x", "--bind", "y"]));
}

#[test]
fn options_without_a_value_are_rejected() {
    for (flag, text) in [
        ("--upstream", "--upstream requires a value"),
        ("--api-key", "--api-key requires a value"),
        ("--salt", "--salt requires a value"),
        ("--mode", "--mode requires plain|hash"),
        ("--concurrent", "--concurrent requires a value"),
        ("--report", "--report requires a path"),
    ] {
        assert_eq!(words(common(&no_env(), &["--api-key", "k", flag])), text);
    }
    assert!(matches!(
        common(&no_env(), &["--salt"]),
        Err(CliError::MissingValue(Flag::Salt))
    ));
}

#[test]
fn a_key_a_valid_mode_and_a_salt_for_digests_are_required() {
    assert_eq!(
        words(common(&no_env(), &["--mode", "odd"])),
        "--api-key (or PROVENEX_API_KEY) is required"
    );
    assert_eq!(
        words(common(&no_env(), &["--api-key", "k", "--mode", "Odd"])),
        "--mode `odd` invalid (use plain or hash)"
    );
    assert_eq!(
        words(common(&no_env(), &["--api-key", "k", "--mode", "hash"])),
        "--mode=hash requires --salt (or PROVENEX_HMAC_SALT)"
    );
    let (config, _) = common(
        &no_env(),
        &["--api-key", "k", "--mode", "hash", "--salt", "s"],
    )
    .unwrap();
    assert_eq!(config.mode, Mode::Hash);
}

#[test]
fn concurrency_is_a_number_and_at_least_one_upload_runs() {
    assert_eq!(
        words(common(&no_env(), &["--concurrent", "-1"])),
        "--concurrent: invalid digit found in string"
    );
    assert_eq!(
        words(common(&no_env(), &["--concurrent", ""])),
        "--concurrent: cannot parse integer from empty string"
    );
    assert_eq!(
        words(common(&no_env(), &["--concurrent", "99999999999999999999999"])),
        "--concurrent: number too large to fit in target type"
    );
    for (given, permits) in [("0", 1), ("1", 1), ("2", 2), ("64", 64)] {
        let (config, _) = common(&no_env(), &["--api-key", "k", "--concurrent", given]).unwrap();
        assert_eq!(config.upload_permits(), permits);
    }
}

fn shares(no_feedback: Option<&str>, list: &[&str]) -> bool {
    let env = Environment {
        no_feedback: no_feedback.map(|s| s.to_string()),
        ..no_env()
    };
    common(&env, list).unwrap().0.feedback
}

#[test]
fn trial_keys_share_unless_declined() {
    let key = ["--api-key", "pvx_trial_1"];
    assert!(shares(None, &key));
    for value in ["", "0", "false", "FALSE", "False"] {
        assert!(shares(Some(value), &key), "{value}");
    }
    for value in ["1", "true", "no", " "] {
        assert!(!shares(Some(value), &key), "{value}");
    }
    assert!(!shares(None, &["--api-key", "pvx_trial_1", "--no-feedback"]));
    assert!(!shares(None, &["--no-feedback", "--api-key", "pvx_trial_1"]));
}

#[test]
fn production_keys_share_only_on_request() {
    assert!(!shares(None, &["--api-key", "pvx_live_1"]));
    assert!(!shares(Some("0"), &["--api-key", "PVX_TRIAL_1"]));
    assert!(shares(None, &["--api-key", "pvx_live_1", "--feedback"]));
}

#[test]
fn asking_for_feedback_overrides_declining_it() {
    for key in ["pvx_trial_1", "pvx_live_1"] {
        assert!(shares(Some("1"), &["--api-key", key, "--feedback"]));
        assert!(shares(None, &["--no-feedback", "--feedback", "--api-key", key]));
        assert!(shares(None, &["--feedback", "--no-feedback", "--api-key", key]));
    }
    // As the value of another option the word asks for nothing.
    assert!(!shares(None, &["--api-key", "k", "--salt", "--feedback"]));
}

#[test]
fn options_are_read_in_steps() {
    let options = Options::from_environment(&no_env());
    let options = options.scan(&args(&["a", "--api-key", "k"])).unwrap();
    let options = options.scan(&args(&["b"])).unwrap();
    assert_eq!(options.positional, args(&["a", "b"]));
    let (config, rest) = options.settle("http://f".to_string(), "9").unwrap();
    assert_eq!(config.api_key, "k");
    assert_eq!(config.feedback_url, "http://f");
    assert_eq!(config.binary_version, "9");
    assert_eq!(rest, args(&["a", "b"]));
}

#[test]
fn listen_binds_to_the_last_address_given() {
    assert_eq!(parse_listen_args(&args(&[]), None).unwrap(), "0.0.0.0:4318");
    assert_eq!(
        parse_listen_args(&args(&["x"]), Some("1.1.1.1:1".to_string())).unwrap(),
        "1.1.1.1:1"
    );
    assert_eq!(
        parse_listen_args(&args(&["--bind", "a", "x", "--bind", "b"]), None).unwrap(),
        "b"
    );
    let e = parse_listen_args(&args(&["--bind"]), None).unwrap_err();
    assert_eq!(e.message(), "--bind requires a value");
}

#[test]
fn send_and_batch_need_something_to_work_on() {
    assert_eq!(first_target(&args(&["a", "b"]), Target::SendFile).unwrap(), "a");
    let e = first_target(&args(&[]), Target::SendFile).unwrap_err();
    assert_eq!(e.message(), "send requires a file argument");
    let e = first_target(&args(&[]), Target::BatchDirectory).unwrap_err();
    assert_eq!(e.message(), "batch requires a directory argument");
}

#[test]
fn subcommands_are_told_apart() {
    for (word, command) in [
        ("send", Command::Send),
        ("batch", Command::Batch),
        ("watch", Command::Watch),
        ("listen", Command::Listen),
        ("proxy", Command::Listen),
        ("-h", Command::Help),
        ("--help", Command::Help),
        ("help", Command::Help),
        ("Send", Command::Unknown),
        ("", Command::Unknown),
    ] {
        assert_eq!(parse_command(&args(&[word, "x"])), command, "{word}");
    }
    assert_eq!(parse_command(&args(&[])), Command::Help);
}

#[test]
fn numbers_are_read_as_the_standard_library_reads_them() {
    for text in [
        "0", "5", "007", "+1", "18446744073709551615", "18446744073709551616",
        "99999999999999999999x", "9999999999999999999x", "+", "-", "-1", "", " 1", "1 ", "٣", "1_0",
    ] {
        match text.parse::<u64>() {
            Ok(n) => assert_eq!(parse_number(text, u64::MAX), Ok(n), "{text}"),
            Err(e) => {
                let ours = parse_number(text, u64::MAX).unwrap_err();
                assert_eq!(ours.message(), e.to_string(), "{text}");
            }
        }
    }
    assert_eq!(parse_number("256", 255), Err(NumberError::TooLarge));
    assert_eq!(parse_number("255", 255), Ok(255));
    for n in [0, 9, 10, 1234567890, u64::MAX] {
        assert_eq!(decimal_text(n), n.to_string());
        assert_eq!(parse_number(&decimal_text(n), u64::MAX), Ok(n));
    }
}
