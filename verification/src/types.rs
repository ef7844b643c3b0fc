//! The values a successful read hands back.

use vstd::prelude::*;

verus! {

/// Pixel dimensions of an image.
#[derive(Clone, Copy, Debug, PartialEq, Eq)]
pub struct Dimensions {
    pub width: u32,
    pub height: u32,
}

/// Container format of an image.
#[derive(Clone, Copy, Debug, PartialEq, Eq)]
pub enum Format {
    Gif,
}

/// What is known of an image once its block stream has been walked.
#[derive(Clone, Copy, Debug, PartialEq, Eq)]
pub struct ImageMeta {
    pub dimensions: Dimensions,
    pub format: Format,
    /// The number of frames of an animation; `None` for a still image.
    pub animation_frames: Option<usize>,
}

/// The frame count an image reports after `frames` image blocks were seen:
/// a count only where there is more than one.
pub open spec fn animation_frames(frames: nat) -> Option<usize> {
    if 1 < frames {
        Some(frames as usize)
    } else {
        None
    }
}

impl ImageMeta {
    /// The metadata of a GIF with the given screen size and `frames` image blocks.
    pub open spec fn gif(dimensions: Dimensions, frames: nat) -> ImageMeta {
        ImageMeta { dimensions, format: Format::Gif, animation_frames: animation_frames(frames) }
    }
}

} // verus!
