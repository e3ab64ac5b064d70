//! Hard failures.
//!
//! [`Error`] is for the "no usable result at all" cases: the core won't open,
//! the ELF won't parse, libc can't be located, a required symbol is missing.
//! These propagate to the program's edge, which prints [`Error::message`] to
//! stderr and exits non-zero. Recoverable issues use
//! [`crate::problem::Problem`] instead.

use vstd::prelude::*;
use vstd::string::*;

use crate::text;

verus! {

#[derive(Debug)]
pub enum Error {
    /// A file could not be read; `source` is what the system said.
    Io { path: String, source: String },
    NotElf { path: String },
    /// The bytes are no ELF file the parser understands; it said why.
    ElfParse(String),
    UnsupportedArch(u16),
    NoteTooShort { expected: usize, actual: usize },
    LibcNotFound(String),
    AddressNotMapped { addr: u64 },
    MissingSymbol(&'static str),
    UnusableLibc(String),
    /// The report could not be written as JSON.
    Json(String),
}

pub type Result<T> = std::result::Result<T, Error>;

/// An [`Error`] with its texts as character sequences.
pub enum ErrorView {
    Io { path: Seq<char>, source: Seq<char> },
    NotElf { path: Seq<char> },
    ElfParse(Seq<char>),
    UnsupportedArch(u16),
    NoteTooShort { expected: nat, actual: nat },
    LibcNotFound(Seq<char>),
    AddressNotMapped { addr: u64 },
    MissingSymbol(Seq<char>),
    UnusableLibc(Seq<char>),
    Json(Seq<char>),
}

impl View for Error {
    type V = ErrorView;

    open spec fn view(&self) -> ErrorView {
        match *self {
            Error::Io { path, source } => ErrorView::Io { path: path@, source: source@ },
            Error::NotElf { path } => ErrorView::NotElf { path: path@ },
            Error::ElfParse(text) => ErrorView::ElfParse(text@),
            Error::UnsupportedArch(machine) => ErrorView::UnsupportedArch(machine),
            Error::NoteTooShort { expected, actual } => ErrorView::NoteTooShort {
                expected: expected as nat,
                actual: actual as nat,
            },
            Error::LibcNotFound(text) => ErrorView::LibcNotFound(text@),
            Error::AddressNotMapped { addr } => ErrorView::AddressNotMapped { addr },
            Error::MissingSymbol(name) => ErrorView::MissingSymbol(name@),
            Error::UnusableLibc(text) => ErrorView::UnusableLibc(text@),
            Error::Json(text) => ErrorView::Json(text@),
        }
    }
}

/// A result with its error as a view.
pub open spec fn outcome<T>(r: std::result::Result<T, Error>) -> std::result::Result<T, ErrorView> {
    match r {
        Ok(v) => Ok(v),
        Err(e) => Err(e@),
    }
}

impl ErrorView {
    /// The one-line explanation of the failure.
    pub open spec fn message(self) -> Seq<char> {
        match self {
            ErrorView::Io { path, source } => "failed to read "@ + path + ": "@ + source,
            ErrorView::NotElf { path } => path + " is not a valid ELF file"@,
            ErrorView::ElfParse(text) => "failed to parse ELF data: "@ + text,
            ErrorView::UnsupportedArch(machine) => {
                "unsupported architecture: e_machine="@ + text::hex(machine as nat)
            },
            ErrorView::NoteTooShort { expected, actual } => {
                "note data too short: expected at least "@ + text::decimal(expected)
                    + " bytes, got "@ + text::decimal(actual)
            },
            ErrorView::LibcNotFound(text) => "could not locate libc in the core dump: "@ + text,
            ErrorView::AddressNotMapped { addr } => {
                "address "@ + text::hex(addr as nat)
                    + " is not backed by file content in any loaded segment"@
            },
            ErrorView::MissingSymbol(name) => {
                "required glibc symbol '"@ + name + "' not found in reference libc"@
            },
            ErrorView::UnusableLibc(text) => "reference libc is unusable: "@ + text,
            ErrorView::Json(text) => "failed to serialize JSON: "@ + text,
        }
    }
}

impl Error {
    /// The one-line explanation of the failure.
    pub fn message(&self) -> (s: String)
        ensures
            s@ == self@.message(),
    {
        match self {
            Error::Io { path, source } => {
                let mut out = text::concat3("failed to read ", path, ": ");
                out.append(source);
                out
            },
            Error::NotElf { path } => text::concat2(path, " is not a valid ELF file"),
            Error::ElfParse(text) => text::concat2("failed to parse ELF data: ", text),
            Error::UnsupportedArch(machine) => text::concat2(
                "unsupported architecture: e_machine=",
                &text::hex_string(*machine as u64),
            ),
            Error::NoteTooShort { expected, actual } => {
                let mut out = text::concat3(
                    "note data too short: expected at least ",
                    &text::decimal_string(*expected as u64),
                    " bytes, got ",
                );
                out.append(&text::decimal_string(*actual as u64));
                out
            },
            Error::LibcNotFound(text) => {
                text::concat2("could not locate libc in the core dump: ", text)
            },
            Error::AddressNotMapped { addr } => text::concat3(
                "address ",
                &text::hex_string(*addr),
                " is not backed by file content in any loaded segment",
            ),
            Error::MissingSymbol(name) => text::concat3(
                "required glibc symbol '",
                name,
                "' not found in reference libc",
            ),
            Error::UnusableLibc(text) => text::concat2("reference libc is unusable: ", text),
            Error::Json(text) => text::concat2("failed to serialize JSON: ", text),
        }
    }
}

} // verus!
