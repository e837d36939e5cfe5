//! A replacement for a boxed, type-erased error that is an error itself.
//!
//! [`BoxError`] is an error whose concrete type is erased. It is not an
//! [`Error`]. [`DynError`] owns one and is an [`Error`], so it can go
//! wherever an error is asked for, into a [`Report`] for one. Boxing a
//! `DynError` again gives the same `DynError` back: there is never more than
//! one layer.
//!
//! [`DynResult`] is the result type that goes with it. A failure that is
//! handed to it, from a plain result or from another `DynResult`, arrives as
//! a `DynError`.
use crate::error::{chain_of, Error, ErrorRecord};
use crate::error_reporter::{single_line, Report};
use std::ops::ControlFlow;
use vstd::prelude::*;
use vstd::string::StringExecFns;

verus! {

/// An error on the heap whose concrete type is erased. What is left of the
/// type is whether it was a [`DynError`].
#[derive(Debug)]
pub enum BoxError {
    /// An error of any other type.
    Other(Box<ErrorRecord>),
    /// A `DynError`.
    Dyn(Box<DynError>),
}

/// Owning type for a `BoxError`.
#[derive(Debug)]
pub struct DynError {
    /// The inner wrapped `BoxError`.
    error: BoxError,
}

impl BoxError {
    /// The display text of the error inside.
    pub open spec fn text(&self) -> Seq<char>
        decreases self,
    {
        match self {
            BoxError::Other(error) => error.text(),
            BoxError::Dyn(error) => error.inner().text(),
        }
    }

    /// The direct source of the error inside.
    pub open spec fn cause(&self) -> Option<ErrorRecord>
        decreases self,
    {
        match self {
            BoxError::Other(error) => error.cause(),
            BoxError::Dyn(error) => error.inner().cause(),
        }
    }

    /// The backtrace of the error inside. A `DynError` shows none.
    pub open spec fn trace(&self) -> Option<Seq<char>> {
        match self {
            BoxError::Other(error) => error.trace(),
            BoxError::Dyn(_) => None,
        }
    }

    /// The display texts along the chain of the error inside.
    pub open spec fn chain(&self) -> Seq<Seq<char>> {
        match self.cause() {
            None => seq![self.text()],
            Some(cause) => seq![self.text()] + cause.texts(),
        }
    }

    /// The display text of the error inside.
    pub fn display(&self) -> (s: &str)
        ensures
            s@ == self.text(),
        decreases self,
    {
        match self {
            BoxError::Other(error) => error.display(),
            BoxError::Dyn(error) => error.error.display(),
        }
    }

    /// The direct source of the error inside.
    pub fn source(&self) -> (r: Option<&ErrorRecord>)
        ensures
            r is Some <==> self.cause() is Some,
            r matches Some(e) ==> *e == self.cause()->0,
        decreases self,
    {
        match self {
            BoxError::Other(error) => error.source(),
            BoxError::Dyn(error) => error.error.source(),
        }
    }

    /// The backtrace of the error inside.
    pub fn backtrace(&self) -> (r: Option<&str>)
        ensures
            r is Some <==> self.trace() is Some,
            r matches Some(t) ==> t@ == self.trace()->0,
    {
        match self {
            BoxError::Other(error) => error.backtrace(),
            BoxError::Dyn(_) => None,
        }
    }

    /// Gives the `DynError` back if that is what was erased, and the
    /// `BoxError` unchanged if it was anything else.
    pub fn downcast(self) -> (r: Result<Box<DynError>, BoxError>)
        ensures
            r == (match self {
                BoxError::Dyn(error) => Ok::<Box<DynError>, BoxError>(error),
                BoxError::Other(_) => Err::<Box<DynError>, BoxError>(self),
            }),
    {
        match self {
            BoxError::Dyn(error) => Ok(error),
            BoxError::Other(error) => Err(BoxError::Other(error)),
        }
    }
}

/// An owned error that can be erased into a [`BoxError`].
pub trait Erase: Error + Sized {
    /// The error with its type erased.
    spec fn erased(self) -> BoxError;

    /// Erasing changes nothing of what can be read of the error.
    proof fn lemma_erased(self)
        ensures
            self.erased().text() == self.text(),
            self.erased().cause() == self.cause(),
            self.erased().trace() == self.trace(),
    ;

    fn erase(self) -> (erased: BoxError)
        ensures
            erased == self.erased(),
    ;
}

impl Erase for ErrorRecord {
    open spec fn erased(self) -> BoxError {
        BoxError::Other(Box::new(self))
    }

    proof fn lemma_erased(self) {
    }

    fn erase(self) -> (erased: BoxError) {
        BoxError::Other(Box::new(self))
    }
}

impl Erase for DynError {
    open spec fn erased(self) -> BoxError {
        BoxError::Dyn(Box::new(self))
    }

    proof fn lemma_erased(self) {
    }

    fn erase(self) -> (erased: BoxError) {
        BoxError::Dyn(Box::new(self))
    }
}

impl DynError {
    /// The erased error that this one owns.
    pub closed spec fn inner(&self) -> BoxError {
        self.error
    }

    /// What a `DynError` owns is never another `DynError`.
    #[verifier::type_invariant]
    pub closed spec fn is_single_layer(&self) -> bool {
        self.error is Other
    }

    /// The `DynError` that stands for an erased error: the one that was
    /// erased, if it was one, and else a new one around the error.
    pub closed spec fn flattened(error: BoxError) -> DynError {
        match error {
            BoxError::Dyn(inner) => *inner,
            BoxError::Other(_) => DynError { error },
        }
    }

    /// Create a new `DynError` from an input error.
    pub fn new<E: Erase>(error: E) -> (r: DynError)
        ensures
            r == Self::flattened(error.erased()),
            r.is_single_layer(),
            r.text() == error.text(),
            r.cause() == error.cause(),
            r.trace() is None,
    {
        proof {
            error.lemma_erased();
        }
        let error = error.erase();

        // Check if the erased error type is already the type we want
        match error.downcast() {
            // If it is use it directly
            Ok(boxed) => {
                let error = *boxed;
                proof {
                    use_type_invariant(&error);
                }
                error
            },
            // otherwise create a new `DynError` to wrap the type erased error
            Err(error) => DynError { error },
        }
    }
}

/// This type is an error: its text and its source are those of the error
/// that it owns.
impl Error for DynError {
    closed spec fn text(&self) -> Seq<char> {
        self.error.text()
    }

    closed spec fn cause(&self) -> Option<ErrorRecord> {
        self.error.cause()
    }

    closed spec fn trace(&self) -> Option<Seq<char>> {
        None
    }

    fn display(&self) -> (s: &str) {
        self.error.display()
    }

    fn source(&self) -> (r: Option<&ErrorRecord>) {
        self.error.source()
    }

    fn backtrace(&self) -> (r: Option<&str>) {
        None
    }
}

/// Result that always converts error types to a `DynError`.
pub enum DynResult<T> {
    /// The success variant of the `DynResult`.
    Success(T),
    /// The failure variant of the `DynResult` containing a `DynError`.
    Failure(DynError),
}

/// What is left of a failed `Result` when the type of its success is
/// forgotten: the error.
pub struct ResultResidual<E> {
    pub error: E,
}

/// What is left of a failed `DynResult` when the type of its success is
/// forgotten: the error.
pub struct DynResidual {
    pub error: DynError,
}

/// A type that is either an output or a residual to be handed up.
pub trait Try: Sized {
    type Output;

    type Residual;

    fn from_output(output: Self::Output) -> Self;

    fn branch(self) -> ControlFlow<Self::Residual, Self::Output>;
}

/// A type that can be made from the residual `R` of a failure.
pub trait FromResidual<R>: Sized {
    fn from_residual(residual: R) -> Self;
}

impl<T> Try for DynResult<T> {
    type Output = T;

    type Residual = DynResidual;

    fn from_output(output: T) -> (r: Self)
        ensures
            r == DynResult::Success(output),
    {
        DynResult::Success(output)
    }

    fn branch(self) -> (flow: ControlFlow<DynResidual, T>)
        ensures
            flow == (match self {
                DynResult::Success(value) => ControlFlow::<DynResidual, T>::Continue(value),
                DynResult::Failure(error) => ControlFlow::<DynResidual, T>::Break(
                    DynResidual { error },
                ),
            }),
    {
        match self {
            DynResult::Success(value) => ControlFlow::Continue(value),
            DynResult::Failure(error) => ControlFlow::Break(DynResidual { error }),
        }
    }
}

/// Given the error of a failed `Result`, convert it to a failed `DynResult`.
impl<T, E: Erase> FromResidual<ResultResidual<E>> for DynResult<T> {
    fn from_residual(residual: ResultResidual<E>) -> (r: Self)
        ensures
            r == DynResult::<T>::Failure(DynError::flattened(residual.error.erased())),
            r matches DynResult::Failure(error) && error.is_single_layer() && error.text()
                == residual.error.text() && error.cause() == residual.error.cause(),
    {
        let error = DynError::new(residual.error);
        DynResult::Failure(error)
    }
}

/// Given the error of a failed `DynResult`, convert it to a failed `DynResult`.
impl<T> FromResidual<DynResidual> for DynResult<T> {
    fn from_residual(residual: DynResidual) -> (r: Self)
        ensures
            r == DynResult::<T>::Failure(residual.error),
    {
        DynResult::Failure(residual.error)
    }
}

/// Given the error of a failed `DynResult`, convert it to a failed `Result`.
impl<T> FromResidual<DynResidual> for Result<T, BoxError> {
    fn from_residual(residual: DynResidual) -> (r: Self)
        ensures
            r == Err::<T, BoxError>(residual.error.erased()),
    {
        let error = residual.error.erase();
        Err(error)
    }
}

/// How a program ends on a `DynResult`: the status it exits with, and the
/// line it writes to its error stream before.
pub struct ExitReport {
    pub code: i32,
    pub stderr: Option<String>,
}

impl<T> DynResult<T> {
    /// The end of a program on this result: status 0 and nothing to write
    /// for a success; status 1 for a failure, and the one-line report of
    /// its error after `Error: `.
    pub fn report(self) -> (exit: ExitReport)
        ensures
            self is Success ==> exit.code == 0 && exit.stderr is None,
            self matches DynResult::Failure(error) ==> exit.code == 1 && exit.stderr is Some
                && exit.stderr->0@ == "Error: "@ + single_line(chain_of(error)),
    {
        match self {
            DynResult::Success(_) => ExitReport { code: 0, stderr: None },
            DynResult::Failure(error) => {
                let mut line = String::from_str("Error: ");
                Report::new(error).fmt(&mut line);
                ExitReport { code: 1, stderr: Some(line) }
            },
        }
    }
}

/// Boxing a `DynError` gives that `DynError` back: no second layer is put
/// around it.
pub proof fn lemma_box_of_box(error: DynError)
    ensures
        DynError::flattened(error.erased()) == error,
{
}

/// A box around a plain error has one layer, and the error is what it owns.
pub proof fn lemma_box_of_record(error: ErrorRecord)
    ensures
        DynError::flattened(error.erased()).is_single_layer(),
        DynError::flattened(error.erased()).inner() == error.erased(),
{
}

/// Boxing twice is boxing once: the box of the box of an error is the box of
/// that error, and it reads as the error does.
pub proof fn lemma_boxing_twice<E: Erase>(error: E)
    ensures
        ({
            let once = DynError::flattened(error.erased());
            let twice = DynError::flattened(once.erased());
            &&& twice == once
            &&& twice.text() == error.text()
            &&& twice.cause() == error.cause()
            &&& chain_of(twice) == chain_of(error)
        }),
{
    error.lemma_erased();
}

/// An error that goes from a failed `Result` into a `DynResult` and from
/// there into a `Result` with a boxed error keeps its display text and its
/// chain, and boxing what came out gives the `DynError` that was carried.
pub proof fn lemma_round_trip<E: Erase>(error: E)
    ensures
        ({
            let carried = DynError::flattened(error.erased());
            let back = carried.erased();
            &&& back.text() == error.text()
            &&& back.cause() == error.cause()
            &&& back.chain() == chain_of(error)
            &&& DynError::flattened(back) == carried
        }),
{
    error.lemma_erased();
}

} // verus!
