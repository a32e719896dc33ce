//! What can go wrong between a deck and the library.

use vstd::prelude::*;

verus! {

/// The error of the `image` crate, carried unopened.
#[verifier::external_type_specification]
#[verifier::external_body]
pub struct ExImageError(image::ImageError);

/// An error met while serving one deck.
#[derive(Debug)]
pub enum DeviceError {
    /// The device or its host sent something that makes no sense.
    BadData,
    /// A picture could not be decoded or encoded.
    ImageError(image::ImageError),
    /// The device cannot be reached, opened or written to.
    Device,
}

impl DeviceError {
    /// Whether the deck can still be served after this error: bad data and
    /// broken pictures spoil one request, anything else the connection.
    pub open spec fn recoverable(self) -> bool {
        self is BadData || self is ImageError
    }
}

/// Judges an error: `true` if the deck should go on being served, `false` if
/// the error is fatal and the deck has to be deregistered and forgotten.
pub fn handle_error(err: &DeviceError) -> (keep_going: bool)
    ensures
        keep_going == err.recoverable(),
        keep_going <==> !(err is Device),
{
    match err {
        DeviceError::BadData => true,
        DeviceError::ImageError(_) => true,
        DeviceError::Device => false,
    }
}

/// Bad data and broken pictures are survived, and nothing else is.
pub proof fn only_spoilt_requests_are_survived(err: DeviceError)
    ensures
        err is BadData ==> err.recoverable(),
        err is ImageError ==> err.recoverable(),
        err is Device ==> !err.recoverable(),
{
}

} // verus!
