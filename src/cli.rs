//! The command line: `-f <FILE>` (required), `-p <PORT>` (3000 by default),
//! `-h`/`--help` and `-v`/`--version`.
use vstd::prelude::*;
use vstd::string::*;

verus! {

/// What the command line asks for.
#[derive(Debug, PartialEq)]
pub enum Command {
    Help,
    Version,
    Serve { file: String, port: u16 },
}

/// Why a command line is refused.
#[derive(Debug, PartialEq)]
pub enum ArgError {
    /// `-f` is the last argument.
    MissingFileValue,
    /// `-p` is the last argument.
    MissingPortValue,
    /// The value after `-p` is not a port number.
    InvalidPort(String),
    /// An argument that is not an option.
    UnknownArgument(String),
    /// No `-f` was given.
    MissingFile,
}

pub enum CommandValue {
    Help,
    Version,
    Serve { file: Seq<char>, port: u16 },
}

pub enum ArgFault {
    MissingFileValue,
    MissingPortValue,
    InvalidPort(Seq<char>),
    UnknownArgument(Seq<char>),
    MissingFile,
}

impl View for Command {
    type V = CommandValue;

    open spec fn view(&self) -> CommandValue {
        match self {
            Command::Help => CommandValue::Help,
            Command::Version => CommandValue::Version,
            Command::Serve { file, port } => CommandValue::Serve { file: file@, port: *port },
        }
    }
}

impl View for ArgError {
    type V = ArgFault;

    open spec fn view(&self) -> ArgFault {
        match self {
            ArgError::MissingFileValue => ArgFault::MissingFileValue,
            ArgError::MissingPortValue => ArgFault::MissingPortValue,
            ArgError::InvalidPort(s) => ArgFault::InvalidPort(s@),
            ArgError::UnknownArgument(s) => ArgFault::UnknownArgument(s@),
            ArgError::MissingFile => ArgFault::MissingFile,
        }
    }
}

pub const DEFAULT_PORT: u16 = 3000;

pub open spec fn is_digit(c: char) -> bool {
    '0' <= c <= '9'
}

/// The number that a string of decimal digits writes.
pub open spec fn digits_value(s: Seq<char>) -> int
    decreases s.len(),
{
    if s.len() == 0 {
        0
    } else {
        digits_value(s.drop_last()) * 10 + (s.last() as int - '0' as int)
    }
}

/// The digits of a port number: what follows an optional `+`.
pub open spec fn port_digits(s: Seq<char>) -> Seq<char> {
    if s.len() > 0 && s[0] == '+' {
        s.drop_first()
    } else {
        s
    }
}

/// A port number in decimal, as `u16`'s `FromStr` reads it: an optional
/// `+`, then one or more digits, with a value that fits in 16 bits.
pub open spec fn port_value(s: Seq<char>) -> Option<u16> {
    let d = port_digits(s);
    if d.len() > 0 && (forall|i: int| 0 <= i < d.len() ==> is_digit(#[trigger] d[i])) && digits_value(d)
        <= 65535 {
        Some(digits_value(d) as u16)
    } else {
        None
    }
}

pub open spec fn is_help(a: Seq<char>) -> bool {
    a == "-h"@ || a == "--help"@
}

pub open spec fn is_version(a: Seq<char>) -> bool {
    a == "-v"@ || a == "--version"@
}

/// The first help or version flag at or after `i`, wherever it stands.
pub open spec fn scan_flags(args: Seq<Seq<char>>, i: int) -> Option<CommandValue>
    decreases args.len() - i,
{
    if i < 0 || i >= args.len() {
        None
    } else if is_help(args[i]) {
        Some(CommandValue::Help)
    } else if is_version(args[i]) {
        Some(CommandValue::Version)
    } else {
        scan_flags(args, i + 1)
    }
}

/// The file and port that the options from `i` on give, starting from
/// `file` and `port`.
pub open spec fn scan_options(args: Seq<Seq<char>>, i: int, file: Option<Seq<char>>, port: u16) -> Result<
    (Option<Seq<char>>, u16),
    ArgFault,
>
    decreases args.len() - i,
{
    if i < 0 || i >= args.len() {
        Ok((file, port))
    } else if args[i] == "-f"@ {
        if i + 1 < args.len() {
            scan_options(args, i + 2, Some(args[i + 1]), port)
        } else {
            Err(ArgFault::MissingFileValue)
        }
    } else if args[i] == "-p"@ {
        if i + 1 < args.len() {
            match port_value(args[i + 1]) {
                Some(p) => scan_options(args, i + 2, file, p),
                None => Err(ArgFault::InvalidPort(args[i + 1])),
            }
        } else {
            Err(ArgFault::MissingPortValue)
        }
    } else {
        Err(ArgFault::UnknownArgument(args[i]))
    }
}

/// The command that `args` (program name first) asks for.
pub open spec fn command_of(args: Seq<Seq<char>>) -> Result<CommandValue, ArgFault> {
    match scan_flags(args, 0) {
        Some(c) => Ok(c),
        None => match scan_options(args, 1, None, DEFAULT_PORT) {
            Err(e) => Err(e),
            Ok((None, _)) => Err(ArgFault::MissingFile),
            Ok((Some(f), p)) => Ok(CommandValue::Serve { file: f, port: p }),
        },
    }
}

pub open spec fn args_view(args: Seq<String>) -> Seq<Seq<char>> {
    args.map_values(|a: String| a@)
}

fn equals_literal(a: &String, lit: &str) -> (r: bool)
    ensures
        r == (a@ == lit@),
{
    let b = lit.to_owned();
    *a == b
}

/// Reads a port number in decimal.
pub fn parse_port(s: &str) -> (r: Option<u16>)
    ensures
        r == port_value(s@),
{
    let n = s.unicode_len();
    let mut start: usize = 0;
    if n > 0 && s.get_char(0) == '+' {
        start = 1;
    }
    let ghost d = port_digits(s@);
    assert(d =~= s@.subrange(start as int, n as int));
    if start >= n {
        return None;
    }
    let mut value: u32 = 0;
    let mut i: usize = start;
    while i < n
        invariant
            d == s@.subrange(start as int, n as int),
            d == port_digits(s@),
            n == s@.len(),
            start <= i <= n,
            start < n,
            forall|k: int| 0 <= k < i - start ==> is_digit(#[trigger] d[k]),
            value as int == digits_value(d.subrange(0, i - start)),
            value <= 65535,
        decreases n - i,
    {
        let c = s.get_char(i);
        assert(c == d[i - start]);
        if c < '0' || c > '9' {
            assert(!is_digit(d[i - start]));
            return None;
        }
        let digit = (c as u32) - ('0' as u32);
        assert(d.subrange(0, i + 1 - start).drop_last() =~= d.subrange(0, i - start));
        assert(d.subrange(0, i + 1 - start).last() == c);
        let next = value * 10 + digit;
        if next > 65535 {
            proof {
                if forall|k: int| 0 <= k < d.len() ==> is_digit(#[trigger] d[k]) {
                    lemma_digits_value_grows(d, i + 1 - start);
                }
            }
            return None;
        }
        value = next;
        i = i + 1;
    }
    assert(d.subrange(0, n - start) =~= d);
    Some(value as u16)
}

proof fn lemma_digits_value_grows(d: Seq<char>, k: int)
    requires
        0 <= k <= d.len(),
        forall|i: int| 0 <= i < d.len() ==> is_digit(#[trigger] d[i]),
    ensures
        digits_value(d) >= digits_value(d.subrange(0, k)),
    decreases d.len() - k,
{
    if k < d.len() {
        lemma_digits_value_grows(d, k + 1);
        assert(d.subrange(0, k + 1).drop_last() =~= d.subrange(0, k));
        lemma_digits_value_nonneg(d.subrange(0, k));
    } else {
        assert(d.subrange(0, k) =~= d);
    }
}

proof fn lemma_digits_value_nonneg(d: Seq<char>)
    requires
        forall|i: int| 0 <= i < d.len() ==> is_digit(#[trigger] d[i]),
    ensures
        digits_value(d) >= 0,
    decreases d.len(),
{
    if d.len() > 0 {
        lemma_digits_value_nonneg(d.drop_last());
    }
}

/// The command that `args` (program name first) asks for: help or version
/// where either flag appears anywhere, else the file and port that the
/// options give.
pub fn parse_args(args: &Vec<String>) -> (r: Result<Command, ArgError>)
    ensures
        match r {
            Ok(c) => command_of(args_view(args@)) == Ok::<CommandValue, ArgFault>(c@),
            Err(e) => command_of(args_view(args@)) == Err::<CommandValue, ArgFault>(e@),
        },
{
    let ghost av = args_view(args@);
    let mut i: usize = 0;
    while i < args.len()
        invariant
            av == args_view(args@),
            i <= args.len(),
            scan_flags(av, 0) == scan_flags(av, i as int),
        decreases args.len() - i,
    {
        assert(av[i as int] == args@[i as int]@);
        if equals_literal(&args[i], "-h") || equals_literal(&args[i], "--help") {
            return Ok(Command::Help);
        }
        if equals_literal(&args[i], "-v") || equals_literal(&args[i], "--version") {
            return Ok(Command::Version);
        }
        i = i + 1;
    }
    let mut file: Option<String> = None;
    let mut port: u16 = DEFAULT_PORT;
    let mut i: usize = 1;
    while i < args.len()
        invariant
            av == args_view(args@),
            scan_flags(av, 0) is None,
            1 <= i,
            scan_options(av, 1, None, DEFAULT_PORT) == scan_options(
                av,
                i as int,
                match file {
                    Some(f) => Some(f@),
                    None => None,
                },
                port,
            ),
        decreases args.len() - i,
    {
        assert(av[i as int] == args@[i as int]@);
        if equals_literal(&args[i], "-f") {
            if i + 1 < args.len() {
                assert(av[i + 1] == args@[i + 1]@);
                file = Some(args[i + 1].clone());
                i = i + 2;
            } else {
                return Err(ArgError::MissingFileValue);
            }
        } else if equals_literal(&args[i], "-p") {
            if i + 1 < args.len() {
                assert(av[i + 1] == args@[i + 1]@);
                match parse_port(args[i + 1].as_str()) {
                    Some(p) => {
                        port = p;
                        i = i + 2;
                    },
                    None => {
                        return Err(ArgError::InvalidPort(args[i + 1].clone()));
                    },
                }
            } else {
                return Err(ArgError::MissingPortValue);
            }
        } else {
            return Err(ArgError::UnknownArgument(args[i].clone()));
        }
    }
    match file {
        Some(f) => Ok(Command::Serve { file: f, port }),
        None => Err(ArgError::MissingFile),
    }
}

} // verus!
