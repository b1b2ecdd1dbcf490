//! Colour description of a video format.

use vstd::prelude::*;

verus! {

/// How the colours of a video format are encoded.
#[derive(Debug, Clone, PartialEq, Eq)]
pub struct ColorInfo {
    pub primaries: String,
    pub transfer_characteristics: String,
    pub matrix_coefficients: String,
}

impl Default for ColorInfo {
    fn default() -> (info: Self)
        ensures
            info.primaries@.len() == 0,
            info.transfer_characteristics@.len() == 0,
            info.matrix_coefficients@.len() == 0,
    {
        ColorInfo {
            primaries: String::new(),
            transfer_characteristics: String::new(),
            matrix_coefficients: String::new(),
        }
    }
}

} // verus!
