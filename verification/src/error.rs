//! The error values shared by the whole crate.

use vstd::prelude::*;

verus! {

/// Every failure in this crate is an explicit result value, never a panic.
/// Each variant is caller-correctable, and a failed operation performs no
/// partial mutation of the partition map.
#[derive(Clone, Copy, PartialEq, Eq, Structural, Debug)]
pub enum Error {
    /// A point's x coordinate lies outside the world bounds `[0, size)`.
    XOutOfBound,
    /// A point's y coordinate lies outside the world bounds `[0, size)`.
    YOutOfBound,
    /// A key names a region that holds no arena yet.
    RegionNotPresent,
    /// A key names a slot that is empty or out of range.
    InvalidKey,
    /// A texture name is not present in the atlas.
    UnknownTexture,
    /// A sequence name is not present in the animation table.
    UnknownSequence,
    /// A sprite id does not name a live sprite (wrong index or stale
    /// generation).
    StaleHandle,
    /// The current size of a rect leaves a requested resize undefined.
    DegenerateRect,
    /// A transform would carry the sprite's pivot offset outside the range
    /// the scene can store.
    PivotOutOfRange,
    /// More sprites are visible than the index buffer's element type can
    /// address.
    BatchTooLarge,
    /// A camera movement would carry its rect outside the coordinate range
    /// the camera can hold.
    CameraOutOfRange,
}

impl Error {
    /// A short human-readable description of the failure.
    pub fn describe(&self) -> (r: &'static str)
    {
        match self {
            Error::XOutOfBound => "x out of bound",
            Error::YOutOfBound => "y out of bound",
            Error::RegionNotPresent => "region not yet init in raw map",
            Error::InvalidKey => "invalid key",
            Error::UnknownTexture => "unknown texture",
            Error::UnknownSequence => "unknown sequence",
            Error::StaleHandle => "stale sprite handle",
            Error::DegenerateRect => "rect has no extent to scale from",
            Error::PivotOutOfRange => "pivot offset out of range",
            Error::BatchTooLarge => "too many visible sprites for one batch",
            Error::CameraOutOfRange => "camera rect out of range",
        }
    }
}

} // verus!
