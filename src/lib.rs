//! Frame timing for sprite-sheet animation: a keyframe schedule that maps an
//! elapsed time to a frame index, and the composition of atlas cells with
//! manual sub-rectangles.

use vstd::prelude::*;

pub mod extract;
pub mod keyframes;
pub mod plugin;
pub mod rect;

pub use extract::{
    AnimatedSprite, ExtractedKind, ExtractedSprite, SpriteInput, TextureAtlas,
};
pub use keyframes::{AnimatedKeyframes, EmptyScheduleError};
pub use plugin::{BuildPlan, CleanupError, Removal, SpriteAnimationPlugin};
pub use rect::{compose_rect, AtlasLayout, Rect};
