use vstd::prelude::*;
use vstd::std_specs::convert::FromSpecImpl;

verus! {

/// `std::io::Error`, carried through unread.
#[verifier::external_type_specification]
#[verifier::external_body]
pub struct ExIoError(std::io::Error);

/// `std::sync::PoisonError`, carried through unread.
#[verifier::external_type_specification]
#[verifier::external_body]
#[verifier::reject_recursive_types(T)]
pub struct ExPoisonError<T>(std::sync::PoisonError<T>);

/// What a step of a run returns: its result, or why it failed.
pub type CdnResult<T> = Result<T, CdnError>;

/// Why a run failed. The kind is boxed so that a `CdnResult` stays small.
#[derive(Debug)]
pub struct CdnError(pub Box<CdnErrorKind>);

/// The kinds of failure.
#[derive(Debug)]
pub enum CdnErrorKind {
    /// A move would have left the grid.
    InvalidMoveDirection,
    /// The previous holder of a lock failed while holding it.
    PoisonError,
    /// The terminal could not be written to.
    IoError(std::io::Error),
    /// A repairman's thread ended abnormally.
    ThreadError,
}

impl CdnError {
    /// The kind of failure this error stands for.
    pub fn kind(&self) -> (k: &CdnErrorKind)
        ensures
            *k == *self.0,
    {
        &*self.0
    }

    /// True exactly for the error of a move that would leave the grid.
    pub fn is_invalid_move(&self) -> (b: bool)
        ensures
            b == (*self.0 is InvalidMoveDirection),
    {
        match &*self.0 {
            CdnErrorKind::InvalidMoveDirection => true,
            _ => false,
        }
    }
}

impl From<CdnErrorKind> for CdnError {
    fn from(value: CdnErrorKind) -> (r: Self) {
        CdnError(Box::new(value))
    }
}

impl FromSpecImpl<CdnErrorKind> for CdnError {
    open spec fn obeys_from_spec() -> bool {
        true
    }

    open spec fn from_spec(value: CdnErrorKind) -> Self {
        CdnError(Box::new(value))
    }
}

impl<E> From<std::sync::PoisonError<E>> for CdnError {
    fn from(e: std::sync::PoisonError<E>) -> (r: Self) {
        CdnError(Box::new(CdnErrorKind::PoisonError))
    }
}

impl<E> FromSpecImpl<std::sync::PoisonError<E>> for CdnError {
    open spec fn obeys_from_spec() -> bool {
        true
    }

    open spec fn from_spec(e: std::sync::PoisonError<E>) -> Self {
        CdnError(Box::new(CdnErrorKind::PoisonError))
    }
}

impl From<std::io::Error> for CdnError {
    fn from(e: std::io::Error) -> (r: Self) {
        CdnError(Box::new(CdnErrorKind::IoError(e)))
    }
}

impl FromSpecImpl<std::io::Error> for CdnError {
    open spec fn obeys_from_spec() -> bool {
        true
    }

    open spec fn from_spec(e: std::io::Error) -> Self {
        CdnError(Box::new(CdnErrorKind::IoError(e)))
    }
}

} // verus!
