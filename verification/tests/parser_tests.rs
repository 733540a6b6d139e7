//! Tests of the command-line parser and the configuration defaults.

use hexdump_rust::args::ArgError;
use hexdump_rust::args::Args;
use hexdump_rust::args::NumericOption;
use hexdump_rust::args::ParseOutcome;

/// Builds the argument vector a command line would produce.
fn argv(parts: &[&str]) -> Vec<String> {
    parts.iter().map(|s| s.to_string()).collect()
}

#[test]
fn default_configuration() {
    let args = Args::default();
    assert_eq!("example.txt", args.file);
    assert!(args.num.is_none());
    assert_eq!(16, args.width);
    assert!(args.offset);
    assert_eq!(2, args.chunk_size);
    assert!(!args.translate);
    assert_eq!(0, args.start);
}

#[test]
fn parse_file_only_keeps_defaults() {
    match Args::parse(&argv(&["data.bin"])) {
        ParseOutcome::Parsed(args) => {
            assert_eq!("data.bin", args.file);
            assert!(args.num.is_none());
            assert_eq!(16, args.width);
            assert!(args.offset);
            assert_eq!(2, args.chunk_size);
            assert!(!args.translate);
            assert_eq!(0, args.start);
        }
        _ => panic!("expected a parsed configuration"),
    }
}

#[test]
fn parse_all_options() {
    let line = argv(&["-n", "10", "--width", "8", "-c", "1", "--start-offset", "2", "-t", "-o", "data.bin"]);
    match Args::parse(&line) {
        ParseOutcome::Parsed(args) => {
            assert_eq!("data.bin", args.file);
            assert_eq!(Some(10), args.num);
            assert_eq!(8, args.width);
            assert!(!args.offset);
            assert_eq!(1, args.chunk_size);
            assert!(args.translate);
            assert_eq!(2, args.start);
        }
        _ => panic!("expected a parsed configuration"),
    }
}

#[test]
fn parse_short_and_long_forms_agree() {
    let short = argv(&["-w", "4", "-c", "3", "-s", "7", "f"]);
    let long = argv(&["--width", "4", "--chunk-size", "3", "--start-offset", "7", "f"]);
    match (Args::parse(&short), Args::parse(&long)) {
        (ParseOutcome::Parsed(a), ParseOutcome::Parsed(b)) => {
            assert_eq!(a.width, b.width);
            assert_eq!(a.chunk_size, b.chunk_size);
            assert_eq!(a.start, b.start);
        }
        _ => panic!("expected two parsed configurations"),
    }
}

#[test]
fn parse_later_option_wins() {
    match Args::parse(&argv(&["-w", "4", "-w", "2", "f"])) {
        ParseOutcome::Parsed(args) => assert_eq!(2, args.width),
        _ => panic!("expected a parsed configuration"),
    }
}

#[test]
fn parse_help_ends_parsing() {
    assert!(matches!(Args::parse(&argv(&["-h"])), ParseOutcome::Help));
    assert!(matches!(
        Args::parse(&argv(&["--help", "anything", "-w"])),
        ParseOutcome::Help
    ));
}

#[test]
fn parse_missing_file() {
    assert!(matches!(
        Args::parse(&argv(&[])),
        ParseOutcome::Invalid(ArgError::MissingFile)
    ));
    assert!(matches!(
        Args::parse(&argv(&["-t"])),
        ParseOutcome::Invalid(ArgError::MissingFile)
    ));
}

#[test]
fn parse_missing_number() {
    assert!(matches!(
        Args::parse(&argv(&["-n"])),
        ParseOutcome::Invalid(ArgError::ExpectsNumber(NumericOption::Num))
    ));
    assert!(matches!(
        Args::parse(&argv(&["f", "-s"])),
        ParseOutcome::Invalid(ArgError::ExpectsNumber(NumericOption::StartOffset))
    ));
}

#[test]
fn parse_bad_number() {
    assert!(matches!(
        Args::parse(&argv(&["-w", "abc", "f"])),
        ParseOutcome::Invalid(ArgError::ExpectsNumber(NumericOption::Width))
    ));
    assert!(matches!(
        Args::parse(&argv(&["-c", "", "f"])),
        ParseOutcome::Invalid(ArgError::ExpectsNumber(NumericOption::ChunkSize))
    ));
    assert!(matches!(
        Args::parse(&argv(&["-n", "12x", "f"])),
        ParseOutcome::Invalid(ArgError::ExpectsNumber(NumericOption::Num))
    ));
    assert!(matches!(
        Args::parse(&argv(&["-n", "-5", "f"])),
        ParseOutcome::Invalid(ArgError::ExpectsNumber(NumericOption::Num))
    ));
}

#[test]
fn parse_number_range() {
    // The largest value fits; one more does not.
    match Args::parse(&argv(&["-n", "18446744073709551615", "f"])) {
        ParseOutcome::Parsed(args) => assert_eq!(Some(u64::MAX), args.num),
        _ => panic!("expected a parsed configuration"),
    }
    assert!(matches!(
        Args::parse(&argv(&["-n", "18446744073709551616", "f"])),
        ParseOutcome::Invalid(ArgError::ExpectsNumber(NumericOption::Num))
    ));
}

#[test]
fn parse_plus_sign() {
    match Args::parse(&argv(&["-s", "+6", "f"])) {
        ParseOutcome::Parsed(args) => assert_eq!(6, args.start),
        _ => panic!("expected a parsed configuration"),
    }
    assert!(matches!(
        Args::parse(&argv(&["-s", "+", "f"])),
        ParseOutcome::Invalid(ArgError::ExpectsNumber(NumericOption::StartOffset))
    ));
}

#[test]
fn parse_unexpected_value() {
    match Args::parse(&argv(&["one.bin", "two.bin"])) {
        ParseOutcome::Invalid(ArgError::UnexpectedValue(v)) => assert_eq!("two.bin", v),
        _ => panic!("expected the second positional to be rejected"),
    }
}

#[test]
fn parse_unknown_flag_names_the_file() {
    // An argument that matches no option is the file, whatever it looks like.
    match Args::parse(&argv(&["-x"])) {
        ParseOutcome::Parsed(args) => assert_eq!("-x", args.file),
        _ => panic!("expected a parsed configuration"),
    }
}

#[test]
fn parse_through_new() {
    match Args::new(&argv(&["-t", "data.bin"])) {
        ParseOutcome::Parsed(args) => {
            assert!(args.translate);
            assert_eq!("data.bin", args.file);
        }
        _ => panic!("expected a parsed configuration"),
    }
}
