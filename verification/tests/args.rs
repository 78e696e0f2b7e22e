use datapack::args::{help_text, parse_args, Invocation, DEFAULT_DATA_DIR, DEFAULT_OUT_FILE};

fn parsed(args: &[&str]) -> Invocation {
    parse_args(&args.iter().map(|a| a.to_string()).collect())
}

fn run(args: &[&str]) -> (String, String) {
    match parsed(args) {
        Invocation::Run(args) => (args.data_dir, args.out_file),
        other => panic!("{:?}", other),
    }
}

#[test]
fn without_arguments_the_defaults_hold() {
    assert_eq!(run(&[]), (DEFAULT_DATA_DIR.to_string(), DEFAULT_OUT_FILE.to_string()));
    assert_eq!(DEFAULT_DATA_DIR, "../data");
}

#[test]
fn both_paths_can_be_given() {
    let expected = ("d".to_string(), "o".to_string());
    assert_eq!(run(&["--data-dir", "d", "--out", "o"]), expected);
    assert_eq!(run(&["--out", "o", "--data-dir", "d"]), expected);
}

#[test]
fn the_last_setting_counts() {
    assert_eq!(run(&["--out", "a", "--out", "b"]).1, "b");
}

#[test]
fn a_value_may_look_like_an_option() {
    assert_eq!(run(&["--data-dir", "--out"]).0, "--out");
    assert_eq!(run(&["--data-dir", "--help"]).0, "--help");
}

#[test]
fn help_is_given_on_request() {
    assert!(matches!(parsed(&["-h"]), Invocation::Help));
    assert!(matches!(parsed(&["--out", "x", "--help", "--bogus"]), Invocation::Help));
    let help = help_text();
    assert!(help.contains("Usage: compiler [--data-dir PATH] [--out PATH]\n\nOptions:\n"));
    assert!(help.contains("  --data-dir PATH   Source tree root (default: ./../data)\n"));
}

#[test]
fn an_unknown_argument_is_reported() {
    match parsed(&["--out", "x", "extra", "-h"]) {
        Invocation::Unknown(arg) => assert_eq!(arg, "extra"),
        other => panic!("{:?}", other),
    }
}

#[test]
fn a_missing_value_is_reported() {
    assert!(matches!(parsed(&["--data-dir"]), Invocation::NoDataDir));
    assert!(matches!(parsed(&["--data-dir", "d", "--out"]), Invocation::NoOutFile));
}
