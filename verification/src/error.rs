//! Why a CRG file could not be loaded.

use vstd::prelude::*;
use vstd::string::StringExecFns;

verus! {

#[verifier::external_type_specification]
#[verifier::external_body]
pub struct ExIoErrorKind(std::io::ErrorKind);

/// Reason a CRG file could not be loaded.
#[derive(Debug, PartialEq)]
pub enum Error {
    /// A header line could not be decoded. `line` is 1-based.
    Syntax { line: usize, reason: &'static str },
    /// The file uses a feature this crate does not implement.
    Unsupported(&'static str),
    /// A header value that the file's layout depends on is absent.
    Missing(&'static str),
    /// Header values contradict each other or the data.
    Invalid(&'static str),
    /// The file has no `$$$$` data section.
    NoData,
    /// The binary payload is shorter than the header declares.
    Truncated { expected: usize, actual: usize },
    /// The declared grid does not fit in addressable memory.
    TooLarge,
    /// The file has a `$ROAD_CRG_FILE` section, which needs an include loader.
    IncludeUnsupported,
    /// Reading a file failed. `path` is the file as named by the caller or an include.
    Io { path: String, kind: std::io::ErrorKind, message: String },
    /// An included file failed to load; `error` says why.
    Include { path: String, error: Box<Error> },
    /// Includes are nested more than eight levels deep.
    IncludeTooDeep,
    /// A file includes itself, directly or through other files.
    IncludeCycle(String),
}

impl Clone for Error {
    fn clone(&self) -> (r: Self)
        ensures
            r == *self,
        decreases self,
    {
        match self {
            Error::Syntax { line, reason } => Error::Syntax { line: *line, reason: *reason },
            Error::Unsupported(what) => Error::Unsupported(*what),
            Error::Missing(what) => Error::Missing(*what),
            Error::Invalid(what) => Error::Invalid(*what),
            Error::NoData => Error::NoData,
            Error::Truncated { expected, actual } => Error::Truncated {
                expected: *expected,
                actual: *actual,
            },
            Error::TooLarge => Error::TooLarge,
            Error::IncludeUnsupported => Error::IncludeUnsupported,
            Error::Io { path, kind, message } => Error::Io {
                path: path.clone(),
                kind: *kind,
                message: message.clone(),
            },
            Error::Include { path, error } => Error::Include {
                path: path.clone(),
                error: Box::new((**error).clone()),
            },
            Error::IncludeTooDeep => Error::IncludeTooDeep,
            Error::IncludeCycle(path) => Error::IncludeCycle(path.clone()),
        }
    }
}

/// The character of the decimal digit `d`.
pub open spec fn digit_char(d: int) -> char {
    (48 + d) as char
}

/// `n` in decimal, without leading zeros.
pub open spec fn decimal_chars(n: nat) -> Seq<char>
    decreases n,
{
    if n < 10 {
        seq![digit_char(n as int)]
    } else {
        decimal_chars(n / 10).push(digit_char((n % 10) as int))
    }
}

/// The text that describes an error.
pub open spec fn message_of(e: Error) -> Seq<char>
    decreases e,
{
    match e {
        Error::Syntax { line, reason } => "line "@ + decimal_chars(line as nat) + ": "@ + reason@,
        Error::Unsupported(feature) => "unsupported feature: "@ + feature@,
        Error::Missing(what) => "missing "@ + what@,
        Error::Invalid(reason) => "invalid file: "@ + reason@,
        Error::NoData => "no $$$$ data section"@,
        Error::Truncated { expected, actual } => "data section has "@ + decimal_chars(actual as nat)
            + " bytes, header declares "@ + decimal_chars(expected as nat),
        Error::TooLarge => "declared grid exceeds addressable memory"@,
        Error::IncludeUnsupported => "$ROAD_CRG_FILE include needs an include loader"@,
        Error::Io { path, message, .. } => path@ + ": "@ + message@,
        Error::Include { path, error } => "in "@ + path@ + ": "@ + message_of(*error),
        Error::IncludeTooDeep => "includes are nested more than 8 levels deep"@,
        Error::IncludeCycle(path) => path@ + " includes itself"@,
    }
}

fn digit_text(d: usize) -> (t: &'static str)
    requires
        d < 10,
    ensures
        t@ == seq![digit_char(d as int)],
{
    proof {
        reveal_strlit("0");
        reveal_strlit("1");
        reveal_strlit("2");
        reveal_strlit("3");
        reveal_strlit("4");
        reveal_strlit("5");
        reveal_strlit("6");
        reveal_strlit("7");
        reveal_strlit("8");
        reveal_strlit("9");
    }
    let t = match d {
        0 => "0",
        1 => "1",
        2 => "2",
        3 => "3",
        4 => "4",
        5 => "5",
        6 => "6",
        7 => "7",
        8 => "8",
        _ => "9",
    };
    assert(t@ =~= seq![digit_char(d as int)]);
    t
}

fn push_decimal(s: &mut String, n: usize)
    ensures
        final(s)@ == old(s)@ + decimal_chars(n as nat),
    decreases n,
{
    if n >= 10 {
        push_decimal(s, n / 10);
    }
    s.append(digit_text(n % 10));
    assert(final(s)@ =~= old(s)@ + decimal_chars(n as nat));
}

impl Error {
    /// Describes the error, as its `Display` shows it.
    pub fn message(&self) -> (s: String)
        ensures
            s@ == message_of(*self),
    {
        let mut s = String::new();
        self.write_message(&mut s);
        assert(s@ =~= message_of(*self));
        s
    }

    fn write_message(&self, s: &mut String)
        ensures
            final(s)@ == old(s)@ + message_of(*self),
        decreases self,
    {
        let ghost start = s@;
        match self {
            Error::Syntax { line, reason } => {
                s.append("line ");
                push_decimal(s, *line);
                s.append(": ");
                s.append(*reason);
            },
            Error::Unsupported(feature) => {
                s.append("unsupported feature: ");
                s.append(*feature);
            },
            Error::Missing(what) => {
                s.append("missing ");
                s.append(*what);
            },
            Error::Invalid(reason) => {
                s.append("invalid file: ");
                s.append(*reason);
            },
            Error::NoData => s.append("no $$$$ data section"),
            Error::Truncated { expected, actual } => {
                s.append("data section has ");
                push_decimal(s, *actual);
                s.append(" bytes, header declares ");
                push_decimal(s, *expected);
            },
            Error::TooLarge => s.append("declared grid exceeds addressable memory"),
            Error::IncludeUnsupported => s.append("$ROAD_CRG_FILE include needs an include loader"),
            Error::Io { path, message, .. } => {
                s.append(path.as_str());
                s.append(": ");
                s.append(message.as_str());
            },
            Error::Include { path, error } => {
                s.append("in ");
                s.append(path.as_str());
                s.append(": ");
                error.write_message(s);
            },
            Error::IncludeTooDeep => s.append("includes are nested more than 8 levels deep"),
            Error::IncludeCycle(path) => {
                s.append(path.as_str());
                s.append(" includes itself");
            },
        }
        assert(s@ =~= start + message_of(*self));
    }

    /// The error for a failed read of `path`, of the kind `kind`, described by `message`.
    pub fn io(path: String, kind: std::io::ErrorKind, message: String) -> (r: Error)
        ensures
            r == (Error::Io { path, kind, message }),
    {
        Error::Io { path, kind, message }
    }

    /// The error an included file's error is wrapped in, as `std::error::Error::source`
    /// reports it.
    pub fn source_error(&self) -> (r: Option<&Error>)
        ensures
            self matches Error::Include { error, .. } ==> r == Some(&**error),
            !(self is Include) ==> r is None,
    {
        match self {
            Error::Include { error, .. } => Some(&**error),
            _ => None,
        }
    }
}

} // verus!
