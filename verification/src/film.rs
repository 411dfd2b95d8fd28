//! Film processing contracts that do not touch pixel values: quality levels,
//! errors, and the shape check a linear working image must pass.
use vstd::prelude::*;
use crate::media::{FrameDescriptor, WorkingColorSpace};

verus! {

#[derive(Debug, Clone, Copy, PartialEq, Eq, Structural)]
pub enum QualityLevel {
    Preview,
    Realtime,
    High,
    Reference,
}

#[derive(Debug, Clone, Copy, PartialEq, Eq, Structural)]
pub enum FilmError {
    InvalidBufferLength,
    UnsupportedWorkingSpace,
    ProfileNotLoaded,
}

/// What checking a linear image gives: it must be in ACEScg, and hold one
/// pixel for each of `width`×`height` positions.
pub open spec fn linear_image_outcome(descriptor: FrameDescriptor, pixel_count: int) -> Result<(), FilmError> {
    if descriptor.color_space != WorkingColorSpace::AcesCg {
        Err(FilmError::UnsupportedWorkingSpace)
    } else if pixel_count != descriptor.width * descriptor.height {
        Err(FilmError::InvalidBufferLength)
    } else {
        Ok(())
    }
}

/// Checks a linear working image described by `descriptor` that holds
/// `pixel_count` RGBA pixels.
pub fn validate_linear_image(descriptor: &FrameDescriptor, pixel_count: usize) -> (r: Result<(), FilmError>)
    ensures
        r == linear_image_outcome(*descriptor, pixel_count as int),
{
    if descriptor.color_space != WorkingColorSpace::AcesCg {
        return Err(FilmError::UnsupportedWorkingSpace);
    }
    let width: u64 = descriptor.width as u64;
    let height: u64 = descriptor.height as u64;
    assert(width * height <= u32::MAX * u32::MAX) by (nonlinear_arith)
        requires
            width <= u32::MAX,
            height <= u32::MAX,
    ;
    let expected: u64 = width * height;
    if pixel_count as u64 != expected {
        return Err(FilmError::InvalidBufferLength);
    }
    Ok(())
}

} // verus!
