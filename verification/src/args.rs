//! The configuration and its command-line parser.
//!
//! `Args` mirrors the command line: a file, an optional byte count, the line
//! width, the group size, the starting offset, and the two column switches.
//! `Args::parse` turns the argument strings into a configuration, a help
//! request, or a precise error, exactly as `spec_parse` describes.

use vstd::prelude::*;

verus! {

/// Flags and options that configure a dump.
#[derive(Clone, Debug)]
pub struct Args {
    /// File to print.
    pub file: String,
    /// Total number of bytes to print (reading never runs past end of file).
    pub num: Option<u64>,
    /// Number of bytes to print per line.
    pub width: usize,
    /// Whether the offset column is shown.
    pub offset: bool,
    /// Number of bytes per space-separated group.
    pub chunk_size: usize,
    /// Whether the ASCII translation column is shown.
    pub translate: bool,
    /// Starting byte offset to print from.
    pub start: u64,
}

/// The mathematical image of a configuration.
pub struct ArgsView {
    pub file: Seq<char>,
    pub num: Option<u64>,
    pub width: usize,
    pub offset: bool,
    pub chunk_size: usize,
    pub translate: bool,
    pub start: u64,
}

impl View for Args {
    type V = ArgsView;

    open spec fn view(&self) -> ArgsView {
        ArgsView {
            file: self.file@,
            num: self.num,
            width: self.width,
            offset: self.offset,
            chunk_size: self.chunk_size,
            translate: self.translate,
            start: self.start,
        }
    }
}

/// The default configuration: sixteen bytes per line in groups of two,
/// offsets shown, no translation, the whole file from its start.
pub open spec fn spec_default_args() -> ArgsView {
    ArgsView {
        file: "example.txt"@,
        num: None,
        width: 16,
        offset: true,
        chunk_size: 2,
        translate: false,
        start: 0,
    }
}

/// The option a bad or missing numeric value belongs to.
#[derive(Clone, Copy, Debug, PartialEq, Eq, Structural)]
pub enum NumericOption {
    /// `-n`, the total number of bytes to print.
    Num,
    /// `-w` / `--width`, the bytes per line.
    Width,
    /// `-c` / `--chunk-size`, the bytes per group.
    ChunkSize,
    /// `-s` / `--start-offset`, the starting byte offset.
    StartOffset,
}

/// A command-line argument the parser rejects.
#[derive(Clone, Debug)]
pub enum ArgError {
    /// A numeric option's value was missing, malformed, or out of range.
    ExpectsNumber(NumericOption),
    /// A second positional argument appeared after the file.
    UnexpectedValue(String),
    /// No file argument was given.
    MissingFile,
}

/// The mathematical image of an argument error.
pub enum ArgErrorView {
    ExpectsNumber(NumericOption),
    UnexpectedValue(Seq<char>),
    MissingFile,
}

impl View for ArgError {
    type V = ArgErrorView;

    open spec fn view(&self) -> ArgErrorView {
        match self {
            ArgError::ExpectsNumber(o) => ArgErrorView::ExpectsNumber(*o),
            ArgError::UnexpectedValue(s) => ArgErrorView::UnexpectedValue(s@),
            ArgError::MissingFile => ArgErrorView::MissingFile,
        }
    }
}

/// What parsing a command line yields: a configuration, a request for the
/// usage text, or an error.
#[derive(Debug)]
pub enum ParseOutcome {
    /// The arguments formed a configuration.
    Parsed(Args),
    /// `-h` / `--help` was given.
    Help,
    /// An argument was rejected.
    Invalid(ArgError),
}

/// The mathematical image of a parse outcome.
pub enum ParseOutcomeView {
    Parsed(ArgsView),
    Help,
    Invalid(ArgErrorView),
}

impl View for ParseOutcome {
    type V = ParseOutcomeView;

    open spec fn view(&self) -> ParseOutcomeView {
        match self {
            ParseOutcome::Parsed(a) => ParseOutcomeView::Parsed(a@),
            ParseOutcome::Help => ParseOutcomeView::Help,
            ParseOutcome::Invalid(e) => ParseOutcomeView::Invalid(e@),
        }
    }
}

/// How the remaining argument strings are parsed, given the configuration
/// built so far and whether the file argument has appeared.  Options may
/// repeat, the later one winning; the first free-standing argument names the
/// file; `-h` ends parsing at once; an option with a missing or bad value
/// ends it with an error.
pub open spec fn spec_parse(rest: Seq<Seq<char>>, acc: ArgsView, found_file: bool) -> ParseOutcomeView
    decreases rest.len(),
{
    if rest.len() == 0 {
        if found_file {
            ParseOutcomeView::Parsed(acc)
        } else {
            ParseOutcomeView::Invalid(ArgErrorView::MissingFile)
        }
    } else {
        let a = rest[0];
        if a == "-n"@ {
            if rest.len() < 2 || !crate::text::fits_u64(rest[1]) {
                ParseOutcomeView::Invalid(ArgErrorView::ExpectsNumber(NumericOption::Num))
            } else {
                spec_parse(
                    rest.skip(2),
                    ArgsView { num: Some(crate::text::numeral_val(rest[1]) as u64), ..acc },
                    found_file,
                )
            }
        } else if a == "-w"@ || a == "--width"@ {
            if rest.len() < 2 || !crate::text::fits_usize(rest[1]) {
                ParseOutcomeView::Invalid(ArgErrorView::ExpectsNumber(NumericOption::Width))
            } else {
                spec_parse(
                    rest.skip(2),
                    ArgsView { width: crate::text::numeral_val(rest[1]) as usize, ..acc },
                    found_file,
                )
            }
        } else if a == "-c"@ || a == "--chunk-size"@ {
            if rest.len() < 2 || !crate::text::fits_usize(rest[1]) {
                ParseOutcomeView::Invalid(ArgErrorView::ExpectsNumber(NumericOption::ChunkSize))
            } else {
                spec_parse(
                    rest.skip(2),
                    ArgsView { chunk_size: crate::text::numeral_val(rest[1]) as usize, ..acc },
                    found_file,
                )
            }
        } else if a == "-s"@ || a == "--start-offset"@ {
            if rest.len() < 2 || !crate::text::fits_u64(rest[1]) {
                ParseOutcomeView::Invalid(ArgErrorView::ExpectsNumber(NumericOption::StartOffset))
            } else {
                spec_parse(
                    rest.skip(2),
                    ArgsView { start: crate::text::numeral_val(rest[1]) as u64, ..acc },
                    found_file,
                )
            }
        } else if a == "-o"@ || a == "--no-offset"@ {
            spec_parse(rest.skip(1), ArgsView { offset: false, ..acc }, found_file)
        } else if a == "-t"@ || a == "--translate"@ {
            spec_parse(rest.skip(1), ArgsView { translate: true, ..acc }, found_file)
        } else if a == "-h"@ || a == "--help"@ {
            ParseOutcomeView::Help
        } else if !found_file {
            spec_parse(rest.skip(1), ArgsView { file: a, ..acc }, true)
        } else {
            ParseOutcomeView::Invalid(ArgErrorView::UnexpectedValue(a))
        }
    }
}

impl Default for Args {
    /// The default configuration, as `spec_default_args` gives it.
    fn default() -> (r: Args)
        ensures
            r@ == spec_default_args(),
    {
        Args {
            file: "example.txt".to_owned(),
            num: None,
            width: 16,
            offset: true,
            chunk_size: 2,
            translate: false,
            start: 0,
        }
    }
}

impl Args {
    /// Parses the command-line arguments (the strings after the program
    /// name), exactly as `spec_parse` describes, starting from the default
    /// configuration.
    pub fn parse(argv: &Vec<String>) -> (r: ParseOutcome)
        ensures
            r@ == spec_parse(argv.deep_view(), spec_default_args(), false),
    {
        let ghost dv = argv.deep_view();
        let mut args = Args::default();
        let mut found_file = false;
        let mut i: usize = 0;
        let n = argv.len();
        proof {
            assert(dv.skip(0) =~= dv);
        }
        while i < n
            invariant
                i <= n,
                n == argv@.len(),
                dv == argv.deep_view(),
                spec_parse(dv.skip(i as int), args@, found_file) == spec_parse(
                    dv,
                    spec_default_args(),
                    false,
                ),
            decreases n - i,
        {
            proof {
                assert(dv.skip(i as int)[0] == dv[i as int]);
            }
            let arg = &argv[i];
            if crate::text::str_eq(arg.as_str(), "-n") {
                if i + 1 >= n {
                    return ParseOutcome::Invalid(ArgError::ExpectsNumber(NumericOption::Num));
                }
                proof {
                    assert(dv.skip(i as int)[1] == dv[i + 1]);
                }
                match crate::text::parse_u64(argv[i + 1].as_str()) {
                    Some(v) => {
                        args.num = Some(v);
                        proof {
                            assert(dv.skip(i as int).skip(2) =~= dv.skip(i + 2));
                        }
                        i = i + 2;
                    },
                    None => {
                        return ParseOutcome::Invalid(ArgError::ExpectsNumber(NumericOption::Num));
                    },
                }
            } else if crate::text::str_eq(arg.as_str(), "-w") || crate::text::str_eq(
                arg.as_str(),
                "--width",
            ) {
                if i + 1 >= n {
                    return ParseOutcome::Invalid(ArgError::ExpectsNumber(NumericOption::Width));
                }
                proof {
                    assert(dv.skip(i as int)[1] == dv[i + 1]);
                }
                match crate::text::parse_usize(argv[i + 1].as_str()) {
                    Some(v) => {
                        args.width = v;
                        proof {
                            assert(dv.skip(i as int).skip(2) =~= dv.skip(i + 2));
                        }
                        i = i + 2;
                    },
                    None => {
                        return ParseOutcome::Invalid(ArgError::ExpectsNumber(NumericOption::Width));
                    },
                }
            } else if crate::text::str_eq(arg.as_str(), "-c") || crate::text::str_eq(
                arg.as_str(),
                "--chunk-size",
            ) {
                if i + 1 >= n {
                    return ParseOutcome::Invalid(ArgError::ExpectsNumber(NumericOption::ChunkSize));
                }
                proof {
                    assert(dv.skip(i as int)[1] == dv[i + 1]);
                }
                match crate::text::parse_usize(argv[i + 1].as_str()) {
                    Some(v) => {
                        args.chunk_size = v;
                        proof {
                            assert(dv.skip(i as int).skip(2) =~= dv.skip(i + 2));
                        }
                        i = i + 2;
                    },
                    None => {
                        return ParseOutcome::Invalid(
                            ArgError::ExpectsNumber(NumericOption::ChunkSize),
                        );
                    },
                }
            } else if crate::text::str_eq(arg.as_str(), "-s") || crate::text::str_eq(
                arg.as_str(),
                "--start-offset",
            ) {
                if i + 1 >= n {
                    return ParseOutcome::Invalid(
                        ArgError::ExpectsNumber(NumericOption::StartOffset),
                    );
                }
                proof {
                    assert(dv.skip(i as int)[1] == dv[i + 1]);
                }
                match crate::text::parse_u64(argv[i + 1].as_str()) {
                    Some(v) => {
                        args.start = v;
                        proof {
                            assert(dv.skip(i as int).skip(2) =~= dv.skip(i + 2));
                        }
                        i = i + 2;
                    },
                    None => {
                        return ParseOutcome::Invalid(
                            ArgError::ExpectsNumber(NumericOption::StartOffset),
                        );
                    },
                }
            } else if crate::text::str_eq(arg.as_str(), "-o") || crate::text::str_eq(
                arg.as_str(),
                "--no-offset",
            ) {
                args.offset = false;
                proof {
                    assert(dv.skip(i as int).skip(1) =~= dv.skip(i + 1));
                }
                i = i + 1;
            } else if crate::text::str_eq(arg.as_str(), "-t") || crate::text::str_eq(
                arg.as_str(),
                "--translate",
            ) {
                args.translate = true;
                proof {
                    assert(dv.skip(i as int).skip(1) =~= dv.skip(i + 1));
                }
                i = i + 1;
            } else if crate::text::str_eq(arg.as_str(), "-h") || crate::text::str_eq(
                arg.as_str(),
                "--help",
            ) {
                return ParseOutcome::Help;
            } else if !found_file {
                found_file = true;
                args.file = arg.clone();
                proof {
                    assert(dv.skip(i as int).skip(1) =~= dv.skip(i + 1));
                }
                i = i + 1;
            } else {
                return ParseOutcome::Invalid(ArgError::UnexpectedValue(arg.clone()));
            }
        }
        proof {
            assert(dv.skip(i as int) =~= Seq::<Seq<char>>::empty());
        }
        if found_file {
            ParseOutcome::Parsed(args)
        } else {
            ParseOutcome::Invalid(ArgError::MissingFile)
        }
    }

    /// Builds a configuration from the command-line arguments; the same
    /// parse as `Args::parse`.
    pub fn new(argv: &Vec<String>) -> (r: ParseOutcome)
        ensures
            r@ == spec_parse(argv.deep_view(), spec_default_args(), false),
    {
        Args::parse(argv)
    }
}

} // verus!
