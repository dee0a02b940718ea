//! Install-path autodetection.
//!
//! Detecting where a game keeps its archives means querying the platform's
//! software registry, which this library does not reach; the caller that
//! owns the platform query supplies the data path instead. Asking the
//! library itself therefore always fails, explicitly.

use vstd::prelude::*;

use crate::error::ErrorKind;
use crate::error::TESError;

verus! {

/// Attempts to detect the data path of an installed game. The platform
/// registry is outside this library, so the request always fails with an
/// unsupported-feature error naming the limitation.
pub fn autodetect_data_path(_game: &str) -> (r: Result<String, TESError>)
    ensures
        r is Err,
        r matches Err(e) ==> e.kind() == ErrorKind::Unsupported,
{
    Err(TESError::UnsupportedFeature(
        String::from_str("Data path autodetection is not supported for your platform"),
    ))
}

} // verus!
