//! The command line: what each argument does to the options, and the
//! reading of the program's arguments with `lexopt`.
use vstd::prelude::*;
use crate::numbers::{parse_i32, parsed_i32};
use crate::shell::{Shell, parse_shell, shell_named};
use crate::text::str_eq;

verus! {

/// The options given on the command line.
pub struct Cli {
    /// The format string (`-f`/`--format`, or the first plain argument).
    pub format: Option<String>,
    /// `-n`/`--no-version`.
    pub no_version: bool,
    /// `-d`/`--debug`.
    pub debug: bool,
    /// `-b`/`--bench`.
    pub bench: bool,
    /// `--code <CODE>`.
    pub code: Option<i32>,
    /// `--no-color`.
    pub no_color: bool,
    /// `--shell <SHELL>`.
    pub shell: Option<Shell>,
}

/// The options, as the specifications see them.
pub struct CliView {
    pub format: Option<Seq<char>>,
    pub no_version: bool,
    pub debug: bool,
    pub bench: bool,
    pub code: Option<i32>,
    pub no_color: bool,
    pub shell: Option<Shell>,
}

impl View for Cli {
    type V = CliView;

    open spec fn view(&self) -> CliView {
        CliView {
            format: match self.format {
                Some(f) => Some(f@),
                None => None,
            },
            no_version: self.no_version,
            debug: self.debug,
            bench: self.bench,
            code: self.code,
            no_color: self.no_color,
            shell: self.shell,
        }
    }
}

/// One argument, as the argument parser splits them: `-x`, `--name`
/// (without its dashes), or a plain value.
pub enum CliArg {
    Short(char),
    Long(String),
    Value(String),
}

/// An argument, as the specifications see it.
pub enum ArgView {
    Short(char),
    Long(Seq<char>),
    Value(Seq<char>),
}

impl View for CliArg {
    type V = ArgView;

    open spec fn view(&self) -> ArgView {
        match self {
            CliArg::Short(c) => ArgView::Short(*c),
            CliArg::Long(l) => ArgView::Long(l@),
            CliArg::Value(v) => ArgView::Value(v@),
        }
    }
}

/// An option that takes the next argument as its value.
#[derive(Clone, Copy, Debug, PartialEq, Eq, Structural)]
pub enum ValueOption {
    Format,
    Code,
    Shell,
}

/// What to do after an argument.
#[derive(Clone, Copy, Debug, PartialEq, Eq, Structural)]
pub enum ArgStep {
    /// Go on with the next argument.
    Continue,
    /// Print the help text and stop.
    Help,
    /// Print the version and stop.
    Version,
    /// Read the next argument as the value of this option.
    NeedValue(ValueOption),
    /// The argument is not an option of this program.
    Unexpected,
}

/// The value of an option could not be read.
#[derive(Debug)]
pub enum CliError {
    /// `--code` was not given an `i32`.
    InvalidCode(String),
    /// `--shell` was not given a shell name.
    UnknownShell(String),
}

/// `a` is the short option `c` or the long option `name`.
pub open spec fn is_option(a: ArgView, c: char, name: Seq<char>) -> bool {
    match a {
        ArgView::Short(x) => x == c,
        ArgView::Long(l) => l == name,
        ArgView::Value(_) => false,
    }
}

/// `a` is the long option `name` (which has no short form).
pub open spec fn is_long(a: ArgView, name: Seq<char>) -> bool {
    match a {
        ArgView::Long(l) => l == name,
        _ => false,
    }
}

/// The step that argument `a` calls for.
pub open spec fn step_for(a: ArgView) -> ArgStep {
    if is_option(a, 'h', "help"@) {
        ArgStep::Help
    } else if is_option(a, 'V', "version"@) {
        ArgStep::Version
    } else if is_option(a, 'f', "format"@) {
        ArgStep::NeedValue(ValueOption::Format)
    } else if is_option(a, 'n', "no-version"@) || is_option(a, 'd', "debug"@) || is_option(
        a,
        'b',
        "bench"@,
    ) || is_long(a, "no-color"@) || a is Value {
        ArgStep::Continue
    } else if is_long(a, "code"@) {
        ArgStep::NeedValue(ValueOption::Code)
    } else if is_long(a, "shell"@) {
        ArgStep::NeedValue(ValueOption::Shell)
    } else {
        ArgStep::Unexpected
    }
}

/// The options after argument `a`, when `step_for(a)` is `Continue`: the
/// flag that `a` names is set, and a plain value becomes the format unless
/// one was given already. Other steps leave the options as they are.
pub open spec fn options_after(c: CliView, a: ArgView) -> CliView {
    if step_for(a) != ArgStep::Continue {
        c
    } else if is_option(a, 'n', "no-version"@) {
        CliView { no_version: true, ..c }
    } else if is_option(a, 'd', "debug"@) {
        CliView { debug: true, ..c }
    } else if is_option(a, 'b', "bench"@) {
        CliView { bench: true, ..c }
    } else if is_long(a, "no-color"@) {
        CliView { no_color: true, ..c }
    } else {
        match a {
            ArgView::Value(v) => if c.format is None {
                CliView { format: Some(v), ..c }
            } else {
                c
            },
            _ => c,
        }
    }
}

/// The options after option `opt` is given `value`: the format as it is
/// (in place of one given before), the exit code read as an `i32`, the
/// shell by its name; `None` when the value cannot be read.
pub open spec fn value_applied(c: CliView, opt: ValueOption, value: Seq<char>) -> Option<CliView> {
    match opt {
        ValueOption::Format => Some(CliView { format: Some(value), ..c }),
        ValueOption::Code => match parsed_i32(value) {
            Some(v) => Some(CliView { code: Some(v), ..c }),
            None => None,
        },
        ValueOption::Shell => match shell_named(value) {
            Some(s) => Some(CliView { shell: Some(s), ..c }),
            None => None,
        },
    }
}

/// The options before any argument: no format, no flag, no exit code and no
/// shell.
pub open spec fn initial_options() -> CliView {
    CliView {
        format: None,
        no_version: false,
        debug: false,
        bench: false,
        code: None,
        no_color: false,
        shell: None,
    }
}

/// Whether `a` is the short option `c` or the long option `name`.
fn arg_is(a: &CliArg, c: char, name: &str) -> (r: bool)
    ensures
        r == is_option(a@, c, name@),
{
    match a {
        CliArg::Short(x) => *x == c,
        CliArg::Long(l) => str_eq(l.as_str(), name),
        CliArg::Value(_) => false,
    }
}

/// Whether `a` is the long option `name`.
fn arg_is_long(a: &CliArg, name: &str) -> (r: bool)
    ensures
        r == is_long(a@, name@),
{
    match a {
        CliArg::Long(l) => str_eq(l.as_str(), name),
        _ => false,
    }
}

impl Cli {
    /// No option given.
    pub fn new() -> (c: Self)
        ensures
            c@ == initial_options(),
    {
        Cli {
            format: None,
            no_version: false,
            debug: false,
            bench: false,
            code: None,
            no_color: false,
            shell: None,
        }
    }

    /// Takes argument `a` into account and says what to do next.
    pub fn on_arg(&mut self, a: &CliArg) -> (step: ArgStep)
        ensures
            step == step_for(a@),
            final(self)@ == options_after(old(self)@, a@),
    {
        if arg_is(a, 'h', "help") {
            return ArgStep::Help;
        }
        if arg_is(a, 'V', "version") {
            return ArgStep::Version;
        }
        if arg_is(a, 'f', "format") {
            return ArgStep::NeedValue(ValueOption::Format);
        }
        if arg_is(a, 'n', "no-version") {
            self.no_version = true;
            return ArgStep::Continue;
        }
        if arg_is(a, 'd', "debug") {
            self.debug = true;
            return ArgStep::Continue;
        }
        if arg_is(a, 'b', "bench") {
            self.bench = true;
            return ArgStep::Continue;
        }
        if arg_is_long(a, "no-color") {
            self.no_color = true;
            return ArgStep::Continue;
        }
        if let CliArg::Value(v) = a {
            if self.format.is_none() {
                self.format = Some(v.clone());
            }
            return ArgStep::Continue;
        }
        if arg_is_long(a, "code") {
            return ArgStep::NeedValue(ValueOption::Code);
        }
        if arg_is_long(a, "shell") {
            return ArgStep::NeedValue(ValueOption::Shell);
        }
        ArgStep::Unexpected
    }

    /// Sets option `opt` to `value` (see `value_applied`); when the value
    /// cannot be read, the options stay as they are and the error holds the
    /// value.
    pub fn on_value(&mut self, opt: ValueOption, value: String) -> (r: Result<(), CliError>)
        ensures
            match value_applied(old(self)@, opt, value@) {
                Some(c) => r is Ok && final(self)@ == c,
                None => final(self)@ == old(self)@ && match r {
                    Err(CliError::InvalidCode(s)) => opt == ValueOption::Code && s@ == value@,
                    Err(CliError::UnknownShell(s)) => opt == ValueOption::Shell && s@ == value@,
                    Ok(_) => false,
                },
            },
    {
        match opt {
            ValueOption::Format => {
                self.format = Some(value);
                Ok(())
            },
            ValueOption::Code => match parse_i32(value.as_str()) {
                Some(v) => {
                    self.code = Some(v);
                    Ok(())
                },
                None => Err(CliError::InvalidCode(value)),
            },
            ValueOption::Shell => match parse_shell(value.as_str()) {
                Ok(s) => {
                    self.shell = Some(s);
                    Ok(())
                },
                Err(_) => Err(CliError::UnknownShell(value)),
            },
        }
    }
}

#[verifier::external_type_specification]
#[verifier::external_body]
pub struct ExLexoptParser(lexopt::Parser);

#[verifier::external_type_specification]
#[verifier::external_body]
pub struct ExLexoptError(lexopt::Error);

/// A parser over `args`, the program's arguments without its name
/// (`lexopt::Parser::from_args`). Nothing is claimed of the parser here;
/// `ArgReader` records what it was made from.
#[verifier::external_body]
fn arg_parser(args: Vec<String>) -> lexopt::Parser {
    lexopt::Parser::from_args(args)
}

/// A `lexopt` parser with what it was made from and the calls made on it
/// since: `false` for each `next`, `true` for each `value`.
pub struct ArgReader {
    parser: lexopt::Parser,
    args: Ghost<Seq<Seq<char>>>,
    calls: Ghost<Seq<bool>>,
}

impl View for ArgReader {
    type V = (Seq<Seq<char>>, Seq<bool>);

    closed spec fn view(&self) -> (Seq<Seq<char>>, Seq<bool>) {
        (self.args@, self.calls@)
    }
}

/// What `lexopt::Parser::next` returns on a parser made by
/// `Parser::from_args` from the arguments `reader.0` after the calls
/// `reader.1`: `None` for an error, `Some(None)` at the end, otherwise the
/// argument (a long option without its dashes, a value converted lossily).
/// The parser is deterministic: its state is a function of its arguments
/// and of the calls made on it.
pub uninterp spec fn lexopt_next(reader: (Seq<Seq<char>>, Seq<bool>)) -> Option<Option<ArgView>>;

/// What `lexopt::Parser::value` returns on a parser made by
/// `Parser::from_args` from the arguments `reader.0` after the calls
/// `reader.1`: `None` for an error (no value left), otherwise the value,
/// converted lossily.
pub uninterp spec fn lexopt_value(reader: (Seq<Seq<char>>, Seq<bool>)) -> Option<Seq<char>>;

/// A reader over `args`, with no call made yet.
fn arg_reader(args: Vec<String>) -> (r: ArgReader)
    ensures
        r@ == (args@.map_values(|s: String| s@), Seq::<bool>::empty()),
{
    let ghost a = args@.map_values(|s: String| s@);
    ArgReader { parser: arg_parser(args), args: Ghost(a), calls: Ghost(Seq::empty()) }
}

/// The next argument that the parser splits off (`lexopt::Parser::next`):
/// what `lexopt_next` gives for the reader before the call; the call is
/// added to the reader's history.
#[verifier::external_body]
fn next_arg(reader: &mut ArgReader) -> (r: Result<Option<CliArg>, lexopt::Error>)
    ensures
        final(reader)@ == (old(reader)@.0, old(reader)@.1.push(false)),
        match r {
            Err(_) => lexopt_next(old(reader)@) is None,
            Ok(None) => lexopt_next(old(reader)@) == Some(None::<ArgView>),
            Ok(Some(a)) => lexopt_next(old(reader)@) == Some(Some(a@)),
        },
{
    let r = match reader.parser.next() {
        Ok(None) => Ok(None),
        Ok(Some(lexopt::Arg::Short(c))) => Ok(Some(CliArg::Short(c))),
        Ok(Some(lexopt::Arg::Long(l))) => Ok(Some(CliArg::Long(l.to_string()))),
        Ok(Some(lexopt::Arg::Value(v))) => Ok(Some(CliArg::Value(v.to_string_lossy().into_owned()))),
        Err(e) => Err(e),
    };
    reader.calls = Ghost(reader.calls@.push(false));
    r
}

/// The value of the option just split off (`lexopt::Parser::value`): what
/// `lexopt_value` gives for the reader before the call; the call is added
/// to the reader's history.
#[verifier::external_body]
fn next_value(reader: &mut ArgReader) -> (r: Result<String, lexopt::Error>)
    ensures
        final(reader)@ == (old(reader)@.0, old(reader)@.1.push(true)),
        match r {
            Err(_) => lexopt_value(old(reader)@) is None,
            Ok(v) => lexopt_value(old(reader)@) == Some(v@),
        },
{
    let r = match reader.parser.value() {
        Ok(v) => Ok(v.to_string_lossy().into_owned()),
        Err(e) => Err(e),
    };
    reader.calls = Ghost(reader.calls@.push(true));
    r
}

/// What the command line asks for.
pub enum ArgOutcome {
    /// Run with these options.
    Run(Cli),
    /// Print the help text.
    Help,
    /// Print the version.
    Version,
}

/// Why the command line was refused.
pub enum ArgsError {
    /// The parser refused it (an option without its value, a value given to
    /// a flag).
    Syntax(lexopt::Error),
    /// An option that this program does not have.
    Unexpected(CliArg),
    /// An option's value could not be read.
    Invalid(CliError),
    /// The parser kept yielding items past the number that the arguments
    /// hold (each item uses up an argument or a character of one).
    Unending,
}

/// The outcome of reading the command line, as the specifications see it.
pub enum ReadOutcome {
    Run(CliView),
    Help,
    Version,
    Syntax,
    Unexpected(ArgView),
    InvalidCode(Seq<char>),
    UnknownShell(Seq<char>),
    Unending,
}

/// What `r` is, as the specifications see it.
pub open spec fn outcome_view(r: Result<ArgOutcome, ArgsError>) -> ReadOutcome {
    match r {
        Ok(ArgOutcome::Run(c)) => ReadOutcome::Run(c@),
        Ok(ArgOutcome::Help) => ReadOutcome::Help,
        Ok(ArgOutcome::Version) => ReadOutcome::Version,
        Err(ArgsError::Syntax(_)) => ReadOutcome::Syntax,
        Err(ArgsError::Unexpected(a)) => ReadOutcome::Unexpected(a@),
        Err(ArgsError::Invalid(CliError::InvalidCode(s))) => ReadOutcome::InvalidCode(s@),
        Err(ArgsError::Invalid(CliError::UnknownShell(s))) => ReadOutcome::UnknownShell(s@),
        Err(ArgsError::Unending) => ReadOutcome::Unending,
    }
}

/// The error for the value `v` of option `o` that cannot be read.
pub open spec fn value_error(o: ValueOption, v: Seq<char>) -> ReadOutcome {
    match o {
        ValueOption::Code => ReadOutcome::InvalidCode(v),
        ValueOption::Shell => ReadOutcome::UnknownShell(v),
        ValueOption::Format => ReadOutcome::Syntax,
    }
}

/// The outcome of reading on from the parser state `st` with the options
/// `c`, for at most `fuel` more arguments: each argument that the parser
/// gives is taken as `on_arg` takes it, and the value of an option that
/// needs one is asked of the parser and taken as `on_value` takes it.
/// Reading stops at the end, at the parser's error, at help or version, at
/// an unknown option or a value that cannot be read.
pub open spec fn reading(st: (Seq<Seq<char>>, Seq<bool>), c: CliView, fuel: nat) -> ReadOutcome
    decreases fuel,
{
    if fuel == 0 {
        ReadOutcome::Unending
    } else {
        let st1 = (st.0, st.1.push(false));
        match lexopt_next(st) {
            None => ReadOutcome::Syntax,
            Some(None) => ReadOutcome::Run(c),
            Some(Some(a)) => match step_for(a) {
                ArgStep::Continue => reading(st1, options_after(c, a), (fuel - 1) as nat),
                ArgStep::Help => ReadOutcome::Help,
                ArgStep::Version => ReadOutcome::Version,
                ArgStep::Unexpected => ReadOutcome::Unexpected(a),
                ArgStep::NeedValue(o) => match lexopt_value(st1) {
                    None => ReadOutcome::Syntax,
                    Some(v) => match value_applied(c, o, v) {
                        Some(c2) => reading((st1.0, st1.1.push(true)), c2, (fuel - 1) as nat),
                        None => value_error(o, v),
                    },
                },
            },
        }
    }
}

/// How many items the parser can yield at most for `args`: one per
/// argument and one per character of each, and the end.
pub open spec fn item_limit(args: Seq<String>) -> int
    decreases args.len(),
{
    if args.len() == 0 {
        1
    } else {
        item_limit(args.drop_last()) + args.last()@.len() + 1
    }
}

/// `item_limit(args)`, or `usize::MAX` when it is larger.
pub open spec fn capped_item_limit(args: Seq<String>) -> int {
    if item_limit(args) > usize::MAX {
        usize::MAX as int
    } else {
        item_limit(args)
    }
}

/// `capped_item_limit(args)`.
fn items_for(args: &Vec<String>) -> (n: usize)
    ensures
        n == capped_item_limit(args@),
{
    let mut n: usize = 1;
    let mut i: usize = 0;
    let mut capped = false;
    while i < args.len()
        invariant
            i <= args@.len(),
            capped ==> n == usize::MAX && item_limit(args@.take(i as int)) > usize::MAX,
            !capped ==> n == item_limit(args@.take(i as int)),
        decreases args.len() - i,
    {
        proof {
            assert(args@.take(i + 1).drop_last() =~= args@.take(i as int));
        }
        let len = args[i].as_str().unicode_len();
        if !capped {
            if n as u128 + len as u128 + 1 > usize::MAX as u128 {
                capped = true;
                n = usize::MAX;
            } else {
                n = n + len + 1;
            }
        }
        i += 1;
    }
    proof {
        assert(args@.take(args@.len() as int) =~= args@);
    }
    n
}

/// Reads the command line `args` (without the program's name) with
/// `lexopt`: the outcome is `reading` from a parser made from `args` with
/// no call made yet, from the options before any argument, for at most
/// `capped_item_limit(args)` arguments (more than the parser ever yields
/// for them, since each item uses up an argument or a character of one).
pub fn parse_args_from(args: Vec<String>) -> (r: Result<ArgOutcome, ArgsError>)
    ensures
        outcome_view(r) == reading(
            (args@.map_values(|s: String| s@), Seq::<bool>::empty()),
            initial_options(),
            capped_item_limit(args@) as nat,
        ),
{
    let limit = items_for(&args);
    let ghost start = (args@.map_values(|s: String| s@), Seq::<bool>::empty());
    let mut reader = arg_reader(args);
    let mut cli = Cli::new();
    let mut left: usize = limit;
    while left > 0
        invariant
            reading(reader@, cli@, left as nat) == reading(start, initial_options(), limit as nat),
            start == (args@.map_values(|s: String| s@), Seq::<bool>::empty()),
            limit == capped_item_limit(args@),
        decreases left,
    {
        let ghost st = reader@;
        let ghost c0 = cli@;
        let ghost fuel = left as nat;
        let ghost st1 = (st.0, st.1.push(false));
        let next = next_arg(&mut reader);
        left = left - 1;
        match next {
            Err(e) => {
                assert(reading(st, c0, fuel) == ReadOutcome::Syntax);
                return Err(ArgsError::Syntax(e));
            },
            Ok(None) => {
                assert(reading(st, c0, fuel) == ReadOutcome::Run(c0));
                return Ok(ArgOutcome::Run(cli));
            },
            Ok(Some(a)) => {
                assert(lexopt_next(st) == Some(Some(a@)));
                match cli.on_arg(&a) {
                    ArgStep::Continue => {
                        assert(reading(st, c0, fuel) == reading(st1, cli@, left as nat));
                    },
                    ArgStep::Help => {
                        assert(reading(st, c0, fuel) == ReadOutcome::Help);
                        return Ok(ArgOutcome::Help);
                    },
                    ArgStep::Version => {
                        assert(reading(st, c0, fuel) == ReadOutcome::Version);
                        return Ok(ArgOutcome::Version);
                    },
                    ArgStep::Unexpected => {
                        assert(reading(st, c0, fuel) == ReadOutcome::Unexpected(a@));
                        return Err(ArgsError::Unexpected(a));
                    },
                    ArgStep::NeedValue(opt) => {
                        assert(cli@ == c0);
                        match next_value(&mut reader) {
                            Err(e) => {
                                assert(lexopt_value(st1) is None);
                                assert(reading(st, c0, fuel) == ReadOutcome::Syntax);
                                return Err(ArgsError::Syntax(e));
                            },
                            Ok(v) => {
                                let ghost vv = v@;
                                assert(lexopt_value(st1) == Some(vv));
                                match cli.on_value(opt, v) {
                                    Ok(()) => {
                                        assert(value_applied(c0, opt, vv) == Some(cli@));
                                        assert(reading(st, c0, fuel) == reading(
                                            (st1.0, st1.1.push(true)),
                                            cli@,
                                            left as nat,
                                        ));
                                    },
                                    Err(e) => {
                                        assert(value_applied(c0, opt, vv) is None);
                                        assert(reading(st, c0, fuel) == value_error(opt, vv));
                                        return Err(ArgsError::Invalid(e));
                                    },
                                }
                            },
                        }
                    },
                }
            },
        }
    }
    Err(ArgsError::Unending)
}

} // verus!
