//! Errors of this crate: a kind with its structured payload, plus a chain
//! of cause texts so a caller can print "failed to X, caused by Y".
use vstd::prelude::*;
use crate::path::Utf8PathBuf;
use crate::strutil::{push_chars_of, string_from_chars};

verus! {

/// Error kind.
#[derive(Debug)]
pub enum ErrorKind {
    /// No target flag was given and no single default binary exists.
    AmbiguousTarget,
    /// A `--bin`/`--test`/`--bench`/`--example`/`--lib` selection named
    /// nothing that the package has.
    NoSuchTarget { kind: String, name: Option<String> },
    /// A compiler argument vector did not decompose into the recognized
    /// option groups.
    ParseRustcOptions { args: Vec<String> },
    /// The surrounding build tool failed.
    Cargo,
    /// A text did not have the shape the given pattern demands.
    Regex { text: String, regex: String },
    /// A file could not be read.
    ReadFile { path: Utf8PathBuf },
    /// A file could not be written.
    WriteFile { path: Utf8PathBuf },
    /// A build-trace line matched no rule of the trace grammar.
    UnparseableTrace { line: String },
    /// A compiler diagnostic line was not a structured message.
    MalformedDiagnostic { line: String },
}

/// Error: a kind plus the texts of the causes beneath it, outermost first.
#[derive(Debug)]
pub struct Error {
    kind: ErrorKind,
    causes: Vec<String>,
}

impl Error {
    pub closed spec fn spec_kind(&self) -> ErrorKind {
        self.kind
    }

    pub closed spec fn spec_causes(&self) -> Seq<String> {
        self.causes@
    }

    /// Gets the error kind.
    pub fn kind(&self) -> (r: &ErrorKind)
        ensures
            *r == self.spec_kind(),
    {
        &self.kind
    }

    /// The texts of the underlying causes, outermost first.
    pub fn causes(&self) -> (r: &Vec<String>)
        ensures
            r@ == self.spec_causes(),
    {
        &self.causes
    }

    /// An error of the given kind with one recorded cause.
    pub fn with_cause(kind: ErrorKind, cause: String) -> (r: Error)
        ensures
            r.spec_kind() == kind,
            r.spec_causes() == seq![cause],
    {
        let mut causes: Vec<String> = Vec::new();
        causes.push(cause);
        proof {
            assert(causes@ =~= seq![cause]);
        }
        Error { kind, causes }
    }
}

/// The text of each error kind.
pub open spec fn message_of(k: ErrorKind) -> Seq<char> {
    match k {
        ErrorKind::AmbiguousTarget => "Could not determine which binary to run"@,
        ErrorKind::NoSuchTarget { kind, name } => match name {
            Some(n) => "No such `"@ + kind@ + "`: "@ + n@,
            None => "No such `"@ + kind@ + "`"@,
        },
        ErrorKind::ParseRustcOptions { .. } => "Failed to parse the compiler arguments"@,
        ErrorKind::Cargo => "Cargo error"@,
        ErrorKind::Regex { text, regex } => text@ + " does not match "@ + regex@,
        ErrorKind::ReadFile { path } => "Failed to read "@ + path@,
        ErrorKind::WriteFile { path } => "Failed to write "@ + path@,
        ErrorKind::UnparseableTrace { line } => "Unparseable trace line: "@ + line@,
        ErrorKind::MalformedDiagnostic { line } => "Malformed diagnostic line: "@ + line@,
    }
}

impl Error {
    /// The error's own text, exactly as `message_of` spells it; the
    /// recorded causes stand apart, under `causes`.
    pub fn message(&self) -> (r: String)
        ensures
            r@ == message_of(self.spec_kind()),
    {
        let mut out: Vec<char> = Vec::new();
        match &self.kind {
            ErrorKind::AmbiguousTarget => {
                push_chars_of(&mut out, "Could not determine which binary to run");
            },
            ErrorKind::NoSuchTarget { kind, name } => {
                push_chars_of(&mut out, "No such `");
                push_chars_of(&mut out, kind.as_str());
                match name {
                    Some(n) => {
                        push_chars_of(&mut out, "`: ");
                        push_chars_of(&mut out, n.as_str());
                    },
                    None => {
                        push_chars_of(&mut out, "`");
                    },
                }
            },
            ErrorKind::ParseRustcOptions { .. } => {
                push_chars_of(&mut out, "Failed to parse the compiler arguments");
            },
            ErrorKind::Cargo => {
                push_chars_of(&mut out, "Cargo error");
            },
            ErrorKind::Regex { text, regex } => {
                push_chars_of(&mut out, text.as_str());
                push_chars_of(&mut out, " does not match ");
                push_chars_of(&mut out, regex.as_str());
            },
            ErrorKind::ReadFile { path } => {
                push_chars_of(&mut out, "Failed to read ");
                push_chars_of(&mut out, path.as_str());
            },
            ErrorKind::WriteFile { path } => {
                push_chars_of(&mut out, "Failed to write ");
                push_chars_of(&mut out, path.as_str());
            },
            ErrorKind::UnparseableTrace { line } => {
                push_chars_of(&mut out, "Unparseable trace line: ");
                push_chars_of(&mut out, line.as_str());
            },
            ErrorKind::MalformedDiagnostic { line } => {
                push_chars_of(&mut out, "Malformed diagnostic line: ");
                push_chars_of(&mut out, line.as_str());
            },
        }
        proof {
            assert(out@ =~= message_of(self.spec_kind()));
        }
        string_from_chars(out)
    }

    /// An error of the given kind with no recorded cause.
    pub fn from_kind(kind: ErrorKind) -> (r: Error)
        ensures
            r.spec_kind() == kind,
            r.spec_causes() == Seq::<String>::empty(),
    {
        Error { kind, causes: Vec::new() }
    }
}

} // verus!
