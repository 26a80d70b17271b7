use vstd::prelude::*;

verus! {

/// `std::io::Error` is carried through `RiemannError::IoError` unchanged.
#[verifier::external_type_specification]
#[verifier::external_body]
pub struct ExIoError(std::io::Error);

/// Errors reported by the solver.
#[derive(Debug)]
pub enum RiemannError {
    /// A system or matrix dimension that the solver refuses (such as zero).
    InvalidSize(usize),
    /// The eigenvalue computation failed, with a description.
    DiagonalizationError(String),
    /// Writing or encoding a result failed, with a description.
    SerializationError(String),
    /// An I/O operation failed.
    IoError(std::io::Error),
}

} // verus!
