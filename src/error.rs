//! The errors of the library.
use vstd::prelude::*;

use crate::flag::{FlagKind, FlagName, FlagOption};
use crate::help::{Catch, Help};
use crate::text::IntError;

verus! {

/// The data cannot answer the query.
#[derive(Clone, Copy, Debug, PartialEq, Eq)]
pub enum InsufficientData {
    /// The selection of rounds is empty.
    NoRoundsQueried,
    /// No team has any points yet.
    NoRoundsYet,
    /// A selected round is past the last one recorded; both numbers are one-based.
    RoundNotYet { round: usize, final_round: usize },
}

/// A flag that conflicts with what came before it.
#[derive(Clone, Copy, Debug, PartialEq, Eq)]
pub enum InvalidFlag {
    FileAlreadySpecified,
    HelpAfterInteger,
}

/// A flag that wanted an argument and got none.
#[derive(Clone, Copy, Debug, PartialEq, Eq)]
pub enum ExpectedArg {
    Filename,
}

/// An argument that cannot be used.
#[derive(Clone, Debug)]
pub enum InvalidArg {
    /// A single `.` where a range needs `..`.
    UseTwoDots,
    CannotParseInteger { error: IntError },
    /// A range whose start is after its end; both numbers are one-based.
    NotInOrder { start: usize, end: usize },
    RoundZero,
    NonexistentFlag { flag: FlagOption },
    InvalidFlag { error: InvalidFlag },
    /// A round argument after `--help`.
    IntegerAfterHelp,
}

/// What an [`InvalidArg`] says, as a value.
pub enum InvalidArgV {
    UseTwoDots,
    CannotParseInteger(IntError),
    NotInOrder(usize, usize),
    RoundZero,
    NonexistentFlag(FlagName),
    InvalidFlag(InvalidFlag),
    IntegerAfterHelp,
}

impl View for InvalidArg {
    type V = InvalidArgV;

    open spec fn view(&self) -> InvalidArgV {
        match self {
            InvalidArg::UseTwoDots => InvalidArgV::UseTwoDots,
            InvalidArg::CannotParseInteger { error } => InvalidArgV::CannotParseInteger(*error),
            InvalidArg::NotInOrder { start, end } => InvalidArgV::NotInOrder(*start, *end),
            InvalidArg::RoundZero => InvalidArgV::RoundZero,
            InvalidArg::NonexistentFlag { flag } => InvalidArgV::NonexistentFlag(flag@),
            InvalidArg::InvalidFlag { error } => InvalidArgV::InvalidFlag(*error),
            InvalidArg::IntegerAfterHelp => InvalidArgV::IntegerAfterHelp,
        }
    }
}

/// An error about one argument.
#[derive(Clone, Debug)]
pub enum ArgError {
    InvalidArg(InvalidArg),
    ExpectedArg(ExpectedArg),
}

/// What an [`ArgError`] says, as a value.
pub enum ArgErrorV {
    InvalidArg(InvalidArgV),
    ExpectedArg(ExpectedArg),
}

impl View for ArgError {
    type V = ArgErrorV;

    open spec fn view(&self) -> ArgErrorV {
        match self {
            ArgError::InvalidArg(e) => ArgErrorV::InvalidArg(e@),
            ArgError::ExpectedArg(e) => ArgErrorV::ExpectedArg(*e),
        }
    }
}

/// The flag whose help explains a conflict.
pub open spec fn related_flag_spec(e: InvalidFlag) -> FlagKind {
    match e {
        InvalidFlag::FileAlreadySpecified => FlagKind::File,
        InvalidFlag::HelpAfterInteger => FlagKind::Help,
    }
}

/// What help can explain in place of an error; `None` for an error that
/// stands even when help was asked for (an unknown flag, a round after `--help`).
pub open spec fn catch_spec(e: ArgErrorV) -> Option<Catch> {
    match e {
        ArgErrorV::InvalidArg(InvalidArgV::NonexistentFlag(_)) => None,
        ArgErrorV::InvalidArg(InvalidArgV::IntegerAfterHelp) => None,
        ArgErrorV::InvalidArg(InvalidArgV::InvalidFlag(f)) => Some(Catch::Flag(related_flag_spec(f))),
        ArgErrorV::InvalidArg(_) => Some(Catch::Args),
        ArgErrorV::ExpectedArg(ExpectedArg::Filename) => Some(Catch::Flag(FlagKind::File)),
    }
}

impl InvalidFlag {
    pub fn related_flag(&self) -> (r: FlagKind)
        ensures
            r == related_flag_spec(*self),
    {
        match self {
            InvalidFlag::FileAlreadySpecified => FlagKind::File,
            InvalidFlag::HelpAfterInteger => FlagKind::Help,
        }
    }
}

impl ArgError {
    /// What help explains in place of this error, or the error back where it stands.
    pub fn catch(self) -> (r: Result<Catch, ArgError>)
        ensures
            match catch_spec(self@) {
                Some(c) => r == Ok::<Catch, ArgError>(c),
                None => r is Err && r->Err_0@ == self@,
            },
    {
        match self {
            ArgError::InvalidArg(InvalidArg::NonexistentFlag { flag }) => Err(
                ArgError::InvalidArg(InvalidArg::NonexistentFlag { flag }),
            ),
            ArgError::InvalidArg(InvalidArg::IntegerAfterHelp) => Err(
                ArgError::InvalidArg(InvalidArg::IntegerAfterHelp),
            ),
            ArgError::InvalidArg(InvalidArg::InvalidFlag { error }) => Ok(Catch::Flag(error.related_flag())),
            ArgError::InvalidArg(_) => Ok(Catch::Args),
            ArgError::ExpectedArg(ExpectedArg::Filename) => Ok(Catch::Flag(FlagKind::File)),
        }
    }

    /// The error as it stands at argument number `no` (one-based); `arg` is
    /// the argument's text, kept for an invalid argument only.
    pub fn at(self, exe: String, no: usize, arg: Option<String>) -> (r: Error)
        ensures
            r@ == at_spec(self@, exe@, no, opt_view(arg)),
    {
        match self {
            ArgError::InvalidArg(error) => Error::InvalidCall { exe, no, error: InvalidCall::InvalidArg { arg, error } },
            ArgError::ExpectedArg(error) => Error::InvalidCall { exe, no, error: InvalidCall::ExpectedArg { error } },
        }
    }
}

pub open spec fn opt_view(s: Option<String>) -> Option<Seq<char>> {
    match s {
        Some(s) => Some(s@),
        None => None,
    }
}

/// An error about the arguments the program was called with.
#[derive(Clone, Debug)]
pub enum InvalidCall {
    InvalidArg { arg: Option<String>, error: InvalidArg },
    ExpectedArg { error: ExpectedArg },
}

/// Why the program did not compute a scoreboard.
#[derive(Clone, Debug)]
pub enum Error {
    /// Argument number `no` (one-based) of the call by `exe` is wrong.
    InvalidCall { exe: String, no: usize, error: InvalidCall },
    InsufficientData { error: InsufficientData },
    /// Not even the program's name was given.
    NoExecutable,
    /// Help was asked for.
    ShowHelp { help: Help },
}

/// What an [`Error`] says, as a value.
pub enum ErrorV {
    InvalidCall { exe: Seq<char>, no: usize, arg: Option<Seq<char>>, error: ArgErrorV },
    InsufficientData(InsufficientData),
    NoExecutable,
    ShowHelp { exe: Seq<char>, flags: Seq<FlagKind> },
}

impl View for Error {
    type V = ErrorV;

    open spec fn view(&self) -> ErrorV {
        match self {
            Error::InvalidCall { exe, no, error } => match error {
                InvalidCall::InvalidArg { arg, error } => ErrorV::InvalidCall {
                    exe: exe@,
                    no: *no,
                    arg: opt_view(*arg),
                    error: ArgErrorV::InvalidArg(error@),
                },
                InvalidCall::ExpectedArg { error } => ErrorV::InvalidCall {
                    exe: exe@,
                    no: *no,
                    arg: None,
                    error: ArgErrorV::ExpectedArg(*error),
                },
            },
            Error::InsufficientData { error } => ErrorV::InsufficientData(*error),
            Error::NoExecutable => ErrorV::NoExecutable,
            Error::ShowHelp { help } => ErrorV::ShowHelp { exe: help.exe(), flags: help.flags() },
        }
    }
}

/// An argument error placed at argument `no`.
pub open spec fn at_spec(e: ArgErrorV, exe: Seq<char>, no: usize, arg: Option<Seq<char>>) -> ErrorV {
    match e {
        ArgErrorV::InvalidArg(_) => ErrorV::InvalidCall { exe, no, arg, error: e },
        ArgErrorV::ExpectedArg(_) => ErrorV::InvalidCall { exe, no, arg: None, error: e },
    }
}

} // verus!
