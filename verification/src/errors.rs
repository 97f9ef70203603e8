use vstd::prelude::*;

verus! {

/// The closed set of failure kinds surfaced by the submission dispatch path.
///
/// `Network` means the HTTP exchange with the judging engine could not be
/// completed at the transport level; `DecodeError` means a response arrived
/// but was not in the expected shape; `IoError` and `ZipError` mean the
/// in-memory archive could not be written or sealed.
#[derive(Clone, Copy, Debug, PartialEq, Eq, Structural)]
pub enum AppError {
    Network,
    DecodeError,
    IoError,
    ZipError,
}

} // verus!
