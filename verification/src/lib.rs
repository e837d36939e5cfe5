//! Two small error-handling primitives.
//!
//! - [`Report`] renders an error together with its chain of causes, on one
//!   line or as an indented multi-line text.
//! - [`DynError`] erases the concrete type of an error and still is an error
//!   itself; [`DynResult`] is the result type that routes every failure
//!   through it.
//!
//! Both read an error through [`Error`]: its display text, its direct source
//! and the backtrace it may have captured.
pub mod boxerror_replacement;
pub mod error;
pub mod error_reporter;
pub mod text;

pub use boxerror_replacement::{
    BoxError, DynError, DynResidual, DynResult, Erase, ExitReport, FromResidual, ResultResidual,
    Try,
};
pub use error::{Error, ErrorRecord};
pub use error_reporter::{Indented, Report};
