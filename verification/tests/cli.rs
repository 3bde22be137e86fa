use alfred_flutter_docs::cli::{is_valid_short_option_cluster, take_query_value, Cli, CliError};

#[test]
fn parses_attached_and_collapsed_forms() -> Result<(), CliError> {
    let cli = Cli::parse(vec!["-vuqContainer".to_owned()])?;
    assert!(cli.verbose);
    assert!(cli.update);
    assert_eq!(cli.query, "Container");

    let cli = Cli::parse(vec!["-vq".to_owned(), "Container".to_owned()])?;
    assert_eq!(cli.query, "Container");
    assert!(cli.verbose);
    Ok(())
}

#[test]
fn parses_long_equals_and_unrecognized_dash_query() -> Result<(), CliError> {
    assert_eq!(Cli::parse(vec!["--query=--force".to_owned()])?.query, "--force");
    assert_eq!(
        Cli::parse(vec!["-q".to_owned(), "--force".to_owned()])?.query,
        "--force"
    );
    Ok(())
}

#[test]
fn rejects_options_and_valid_clusters_as_separated_query_values() {
    for value in [
        "-q",
        "--query",
        "--query=x",
        "-v",
        "--verbose",
        "-u",
        "--update",
        "-vu",
        "-vq",
    ] {
        let option = if value.starts_with("--") {
            "--query"
        } else {
            "-q"
        };
        let error = Cli::parse(vec![option.to_owned(), value.to_owned()])
            .expect_err("option must not be consumed as query");
        assert_eq!(error.message(), format!("{option} requires a value"));
    }
}

#[test]
fn parses_query_bearing_cluster_and_normalizes_whitespace() -> Result<(), CliError> {
    let cli = Cli::parse(vec!["-vuqFlutter".to_owned()])?;
    assert_eq!(cli.normalized_query(), "flutter");

    let cli = Cli {
        query: "  Container   Widget ".to_owned(),
        ..Cli::default()
    };
    assert_eq!(cli.normalized_query(), "container widget");
    Ok(())
}

#[test]
fn rejects_unknown_arguments_but_accepts_flags_in_any_order() -> Result<(), CliError> {
    assert!(Cli::parse(vec!["-uv".to_owned()])?.update);
    let error = Cli::parse(vec!["-vx".to_owned()]).expect_err("unknown cluster must fail");
    assert_eq!(error.message(), "unknown argument: -vx");
    Ok(())
}

#[test]
fn empty_argument_list_gives_defaults() {
    let cli = Cli::parse(Vec::new()).expect("no arguments must parse");
    assert_eq!(cli, Cli::default());
    assert_eq!(cli.query, "");
    assert!(!cli.verbose);
    assert!(!cli.update);
}

#[test]
fn flag_clusters_set_the_same_flags_in_either_order() {
    let forward = Cli::parse(vec!["-vu".to_owned()]).expect("-vu parses");
    let backward = Cli::parse(vec!["-uv".to_owned()]).expect("-uv parses");
    let repeated = Cli::parse(vec!["-uvuv".to_owned()]).expect("-uvuv parses");
    assert_eq!(forward, backward);
    assert_eq!(forward, repeated);
    assert!(forward.verbose && forward.update);
    assert_eq!(forward.query, "");
}

#[test]
fn long_options_and_single_flags() {
    let cli = Cli::parse(vec![
        "--verbose".to_owned(),
        "--update".to_owned(),
        "--query".to_owned(),
        "Widget".to_owned(),
    ])
    .expect("long options parse");
    assert!(cli.verbose && cli.update);
    assert_eq!(cli.query, "Widget");

    let cli = Cli::parse(vec!["-u".to_owned()]).expect("-u parses");
    assert!(cli.update && !cli.verbose);
}

#[test]
fn later_query_replaces_earlier_one() {
    let cli = Cli::parse(vec![
        "-q".to_owned(),
        "first".to_owned(),
        "--query=second".to_owned(),
    ])
    .expect("two queries parse");
    assert_eq!(cli.query, "second");
}

#[test]
fn attached_query_is_not_read_as_flags() {
    let cli = Cli::parse(vec!["-qvu".to_owned()]).expect("-qvu parses");
    assert_eq!(cli.query, "vu");
    assert!(!cli.verbose && !cli.update);
}

#[test]
fn query_option_at_the_end_requires_a_value() {
    let error = Cli::parse(vec!["-q".to_owned()]).expect_err("missing value");
    assert_eq!(error, CliError::RequiresValue("-q".to_owned()));
    assert_eq!(error.message(), "-q requires a value");

    let error = Cli::parse(vec!["-vq".to_owned()]).expect_err("missing value after cluster");
    assert_eq!(error, CliError::RequiresValue("-q".to_owned()));

    let error = Cli::parse(vec!["--query".to_owned()]).expect_err("missing long value");
    assert_eq!(error.message(), "--query requires a value");
}

#[test]
fn positional_and_unknown_arguments_are_refused() {
    let error = Cli::parse(vec!["Container".to_owned()]).expect_err("positional");
    assert_eq!(error, CliError::UnknownArgument("Container".to_owned()));
    assert_eq!(error.message(), "unknown argument: Container");

    let error = Cli::parse(vec!["--force".to_owned()]).expect_err("unknown long option");
    assert_eq!(error.message(), "unknown argument: --force");

    let error = Cli::parse(vec!["-x".to_owned()]).expect_err("unknown short option");
    assert_eq!(error.message(), "unknown argument: -x");

    let error = Cli::parse(vec!["".to_owned()]).expect_err("empty argument");
    assert_eq!(error.message(), "unknown argument: ");
}

#[test]
fn short_option_cluster_recognition() {
    assert!(is_valid_short_option_cluster("-vu"));
    assert!(is_valid_short_option_cluster("-vq"));
    assert!(is_valid_short_option_cluster("-qx-anything"));
    assert!(is_valid_short_option_cluster("-uvq"));
    assert!(!is_valid_short_option_cluster("-v"));
    assert!(!is_valid_short_option_cluster("-q"));
    assert!(!is_valid_short_option_cluster("--vu"));
    assert!(!is_valid_short_option_cluster("vuq"));
    assert!(!is_valid_short_option_cluster("-vx"));
    assert!(!is_valid_short_option_cluster("-é"));
    assert!(!is_valid_short_option_cluster("-vé"));
    assert!(!is_valid_short_option_cluster(""));
}

#[test]
fn take_query_value_accepts_plain_values_only() {
    let arguments = vec!["-q".to_owned(), "Container".to_owned(), "-vu".to_owned()];
    assert_eq!(
        take_query_value("-q", &arguments, 1),
        Ok("Container".to_owned())
    );
    assert_eq!(
        take_query_value("-q", &arguments, 2),
        Err(CliError::RequiresValue("-q".to_owned()))
    );
    assert_eq!(
        take_query_value("--query", &arguments, 3),
        Err(CliError::RequiresValue("--query".to_owned()))
    );
}

#[test]
fn normalized_query_collapses_all_whitespace_and_lowercases() {
    let cli = Cli {
        query: "\tStateful\n\u{a0}WIDGET  ".to_owned(),
        ..Cli::default()
    };
    assert_eq!(cli.normalized_query(), "stateful widget");

    let blank = Cli {
        query: " \t\n ".to_owned(),
        ..Cli::default()
    };
    assert_eq!(blank.normalized_query(), "");

    let unicode = Cli {
        query: "ÉCOLE Ünit".to_owned(),
        ..Cli::default()
    };
    assert_eq!(unicode.normalized_query(), "école ünit");
}

#[test]
fn concatenated_argument_lists_combine_flags_and_later_query() {
    let first = vec!["-v".to_owned(), "-q".to_owned(), "one".to_owned()];
    let second = vec!["-u".to_owned()];
    let mut both = first.clone();
    both.extend(second.clone());
    let cli = Cli::parse(both).expect("concatenation parses");
    assert_eq!(cli.query, "one");
    assert!(cli.verbose && cli.update);

    let mut both = first.clone();
    both.push("-uqtwo".to_owned());
    let cli = Cli::parse(both).expect("concatenation parses");
    assert_eq!(cli.query, "two");
    assert!(cli.verbose && cli.update);
}
