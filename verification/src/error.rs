//! The failures of a migration run.

use vstd::prelude::*;
use vstd::string::*;
use crate::runner::{Migration, MigrationView, Report};

verus! {

/// `std::path::PathBuf`, which an error carries through without looking into it.
#[verifier::external_type_specification]
#[verifier::external_body]
pub struct ExPathBuf(std::path::PathBuf);

/// `std::io::Error`, which an error carries through without looking into it.
#[verifier::external_type_specification]
#[verifier::external_body]
pub struct ExIoError(std::io::Error);

/// What went wrong. `E` is the error type of the database backend.
#[derive(Debug)]
pub enum Kind<E> {
    /// A migration file name that does not have the expected shape.
    InvalidName,
    /// A migration version that is not a valid integer.
    InvalidVersion,
    /// Two of the caller's migrations share a version; the later one is carried.
    RepeatedVersion(Migration),
    /// An applied migration, and the caller's migration of the same version whose
    /// checksum differs from it.
    DivergentVersion(Migration, Migration),
    /// An applied migration that the caller's set does not hold.
    MissingVersion(Migration),
    /// A migrations directory that could not be read.
    InvalidMigrationPath(std::path::PathBuf, std::io::Error),
    /// A configuration that could not be understood.
    ConfigError(String),
    /// A failure of the database backend, with a message that names the step that
    /// failed and the backend's own error.
    Connection(String, E),
    /// A migration file that could not be read.
    InvalidMigrationFile(std::path::PathBuf, std::io::Error),
    /// The current time could not be written as an RFC 3339 timestamp, so no
    /// history row could be stamped.
    TimestampUnavailable,
}

/// An error of a migration run: its kind, and where the run had got some way, the
/// report of what it had applied.
#[derive(Debug)]
pub struct Error<E> {
    kind: Box<Kind<E>>,
    report: Option<Report>,
}

/// What an error is, as plain values.
pub struct ErrorView<E> {
    pub kind: Kind<E>,
    pub report: Option<Seq<MigrationView>>,
}

impl<E> View for Error<E> {
    type V = ErrorView<E>;

    closed spec fn view(&self) -> ErrorView<E> {
        ErrorView {
            kind: *self.kind,
            report: match self.report {
                Some(r) => Some(r@),
                None => None,
            },
        }
    }
}

/// The view of an optional report.
pub open spec fn report_view(report: Option<Report>) -> Option<Seq<MigrationView>> {
    match report {
        Some(r) => Some(r@),
        None => None,
    }
}

impl<E> Error<E> {
    /// An error of the given kind with the given partial report.
    pub fn new(kind: Kind<E>, report: Option<Report>) -> (e: Error<E>)
        ensures
            e@.kind == kind,
            e@.report == report_view(report),
    {
        Error { kind: Box::new(kind), report }
    }

    /// The report of what the run had applied before it failed, if it carries one.
    pub fn report(&self) -> (r: Option<&Report>)
        ensures
            r is Some <==> self@.report is Some,
            r matches Some(report) ==> self@.report == Some(report@),
    {
        self.report.as_ref()
    }

    /// The kind of the error.
    pub fn kind(&self) -> (k: &Kind<E>)
        ensures
            *k == self@.kind,
    {
        &self.kind
    }

    /// The kind and the report of the error, taken apart.
    pub fn into_parts(self) -> (parts: (Kind<E>, Option<Report>))
        ensures
            parts.0 == self@.kind,
            report_view(parts.1) == self@.report,
    {
        (*self.kind, self.report)
    }
}

/// Whether `kind` is a backend failure with the given message and source.
pub open spec fn is_connection<E>(kind: Kind<E>, msg: Seq<char>, source: E) -> bool {
    kind matches Kind::Connection(m, s) && m@ == msg && s == source
}

/// Turns the failure of a backend call into an error of the run.
pub trait WrapMigrationError<T, E> {
    /// Passes a success through. Wraps a failure as `Kind::Connection` with the
    /// message `msg`, and attaches `report`.
    fn migration_err(self, msg: &str, report: Option<Report>) -> Result<T, Error<E>>;
}

impl<T, E> WrapMigrationError<T, E> for Result<T, E> {
    fn migration_err(self, msg: &str, report: Option<Report>) -> (r: Result<T, Error<E>>)
        ensures
            match self {
                Ok(value) => r == Ok::<T, Error<E>>(value),
                Err(source) => r matches Err(e) && is_connection(e@.kind, msg@, source)
                    && e@.report == report_view(report),
            },
    {
        match self {
            Ok(value) => Ok(value),
            Err(source) => Err(
                Error::new(Kind::Connection(String::from_str(msg), source), report),
            ),
        }
    }
}

} // verus!
