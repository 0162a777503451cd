//! The per-frame pass: for each visible sprite, the source rectangle it is
//! drawn with, taking the frame of its animation from a shared schedule.

use crate::keyframes::{frame_at, AnimatedKeyframes};
use crate::rect::{compose_rect, composed, AtlasLayout, Rect};
use vstd::prelude::*;

verus! {

/// A sprite's reference to a shared schedule (its index among the
/// schedules) and the time offset at which it plays it.
#[derive(Debug, Clone, Copy, PartialEq, Eq, Structural)]
pub struct AnimatedSprite {
    pub offset_ms: u64,
    pub animation_ref: usize,
}

/// A sprite's atlas binding: the layout (its index among the layouts) and
/// the static index of the cell.
#[derive(Debug, Clone, Copy, PartialEq, Eq, Structural)]
pub struct TextureAtlas {
    pub layout: usize,
    pub index: usize,
}

/// What the pass reads of one sprite.
#[derive(Debug, Clone, Copy, PartialEq, Eq, Structural)]
pub struct SpriteInput {
    pub visible: bool,
    pub texture_atlas: Option<TextureAtlas>,
    pub rect: Option<Rect>,
    pub animation: Option<AnimatedSprite>,
    /// The number of slices of a sliced sprite, or `None` for one drawn
    /// from a single rectangle.
    pub slice_count: Option<usize>,
}

/// How one sprite is drawn.
#[derive(Debug, Clone, Copy, PartialEq, Eq, Structural)]
pub enum ExtractedKind {
    /// A range of indices into the list of slices.
    Slices { start: usize, end: usize },
    /// A single source rectangle, or the whole image for `None`.
    Single { rect: Option<Rect> },
}

/// The draw record of the sprite at position `source` of the input.
#[derive(Debug, Clone, Copy, PartialEq, Eq, Structural)]
pub struct ExtractedSprite {
    pub source: usize,
    pub kind: ExtractedKind,
}

/// The cell of `index` in layout `layout`, if both exist.
pub open spec fn cell_of(layouts: Seq<AtlasLayout>, layout: usize, index: usize) -> Option<Rect> {
    if layout < layouts.len() && index < layouts[layout as int].textures@.len() {
        Some(layouts[layout as int].textures@[index as int])
    } else {
        None
    }
}

/// The frame an animated sprite shows at time `now`, or `None` when its
/// reference names no schedule that can be played.
pub open spec fn animation_frame_of(
    schedules: Seq<AnimatedKeyframes>,
    anim: AnimatedSprite,
    now: int,
) -> Option<usize> {
    if anim.animation_ref < schedules.len() && schedules[anim.animation_ref as int].is_playable() {
        Some(frame_at(schedules[anim.animation_ref as int]@, now + anim.offset_ms))
    } else {
        None
    }
}

/// The atlas cell of a sprite: none without an atlas binding; the frame of
/// its animation when it has one that resolves; else its static index.
pub open spec fn atlas_rect_of(
    sprite: SpriteInput,
    layouts: Seq<AtlasLayout>,
    schedules: Seq<AnimatedKeyframes>,
    now: int,
) -> Option<Rect> {
    match sprite.texture_atlas {
        None => None,
        Some(ta) => match sprite.animation {
            None => cell_of(layouts, ta.layout, ta.index),
            Some(anim) => match animation_frame_of(schedules, anim, now) {
                Some(f) => cell_of(layouts, ta.layout, f),
                None => cell_of(layouts, ta.layout, ta.index),
            },
        },
    }
}

/// The source rectangle of a sprite drawn from a single rectangle.
pub open spec fn resolved_rect_of(
    sprite: SpriteInput,
    layouts: Seq<AtlasLayout>,
    schedules: Seq<AnimatedKeyframes>,
    now: int,
) -> Option<Rect> {
    composed(atlas_rect_of(sprite, layouts, schedules, now), sprite.rect)
}

/// A sprite whose animation time stays within `u64` at time `now`.
pub open spec fn time_fits(sprite: SpriteInput, now: int) -> bool {
    match sprite.animation {
        Some(anim) => now + anim.offset_ms <= u64::MAX,
        None => true,
    }
}

/// The frame of `anim` at `now_ms`, or `None` for a reference to a schedule
/// that is missing or cannot be played.
pub fn animation_frame(schedules: &Vec<AnimatedKeyframes>, anim: &AnimatedSprite, now_ms: u64) -> (r:
    Option<usize>)
    requires
        now_ms + anim.offset_ms <= u64::MAX,
    ensures
        r == animation_frame_of(schedules@, *anim, now_ms as int),
{
    if anim.animation_ref < schedules.len() {
        let sched = &schedules[anim.animation_ref];
        let period = sched.period();
        if sched.keyframes.len() > 0 && period > 0 {
            return Some(sched.frame_of_animation(now_ms + anim.offset_ms));
        }
    }
    None
}

/// The cell of `index` in layout `layout`, if both exist.
fn cell(layouts: &Vec<AtlasLayout>, layout: usize, index: usize) -> (r: Option<Rect>)
    ensures
        r == cell_of(layouts@, layout, index),
{
    if layout < layouts.len() {
        layouts[layout].texture_rect(index)
    } else {
        None
    }
}

/// The atlas cell of a sprite at `now_ms`: an animation that resolves sets
/// the cell's index; a dangling one falls back to the static index.
pub fn atlas_rect(
    sprite: &SpriteInput,
    layouts: &Vec<AtlasLayout>,
    schedules: &Vec<AnimatedKeyframes>,
    now_ms: u64,
) -> (r: Option<Rect>)
    requires
        time_fits(*sprite, now_ms as int),
    ensures
        r == atlas_rect_of(*sprite, layouts@, schedules@, now_ms as int),
{
    match sprite.texture_atlas {
        None => None,
        Some(ta) => match sprite.animation {
            None => cell(layouts, ta.layout, ta.index),
            Some(anim) => match animation_frame(schedules, &anim, now_ms) {
                Some(f) => cell(layouts, ta.layout, f),
                None => cell(layouts, ta.layout, ta.index),
            },
        },
    }
}

/// The source rectangle of a sprite at `now_ms`: its atlas cell combined
/// with its manual rectangle.
pub fn resolve_rect(
    sprite: &SpriteInput,
    layouts: &Vec<AtlasLayout>,
    schedules: &Vec<AnimatedKeyframes>,
    now_ms: u64,
) -> (r: Option<Rect>)
    requires
        time_fits(*sprite, now_ms as int),
    ensures
        r == resolved_rect_of(*sprite, layouts@, schedules@, now_ms as int),
{
    compose_rect(atlas_rect(sprite, layouts, schedules, now_ms), sprite.rect)
}

/// The number of slices that the visible sliced sprites hold.
pub open spec fn slices_total(sprites: Seq<SpriteInput>) -> nat
    decreases sprites.len(),
{
    if sprites.len() == 0 {
        0
    } else {
        let s = sprites.last();
        slices_total(sprites.drop_last()) + match s.slice_count {
            Some(c) => if s.visible {
                c as nat
            } else {
                0
            },
            None => 0,
        }
    }
}

/// The draw records of a list of sprites at time `now`: one per visible
/// sprite, in order. A sliced sprite takes the next range of slice indices;
/// any other is drawn from its resolved rectangle.
pub open spec fn extracted_of(
    sprites: Seq<SpriteInput>,
    layouts: Seq<AtlasLayout>,
    schedules: Seq<AnimatedKeyframes>,
    now: int,
) -> Seq<ExtractedSprite>
    decreases sprites.len(),
{
    if sprites.len() == 0 {
        seq![]
    } else {
        let prev = extracted_of(sprites.drop_last(), layouts, schedules, now);
        let s = sprites.last();
        let start = slices_total(sprites.drop_last());
        if !s.visible {
            prev
        } else {
            prev.push(
                ExtractedSprite {
                    source: (sprites.len() - 1) as usize,
                    kind: match s.slice_count {
                        Some(c) => ExtractedKind::Slices {
                            start: start as usize,
                            end: (start + c) as usize,
                        },
                        None => ExtractedKind::Single {
                            rect: resolved_rect_of(s, layouts, schedules, now),
                        },
                    },
                },
            )
        }
    }
}

/// Every visible sprite drawn from a single rectangle keeps its animation
/// time within `u64` at time `now`.
pub open spec fn times_fit(sprites: Seq<SpriteInput>, now: int) -> bool {
    forall|i: int|
        0 <= i < sprites.len() && (#[trigger] sprites[i]).visible && sprites[i].slice_count is None
            ==> time_fits(sprites[i], now)
}

/// The slice total of a prefix never exceeds that of the whole list, and
/// grows by the next sprite's slices.
proof fn lemma_slices_prefix(sprites: Seq<SpriteInput>, i: int)
    requires
        0 <= i <= sprites.len(),
    ensures
        slices_total(sprites.take(i)) <= slices_total(sprites),
    decreases sprites.len() - i,
{
    if i < sprites.len() {
        lemma_slices_prefix(sprites, i + 1);
        assert(sprites.take(i + 1).drop_last() =~= sprites.take(i));
    } else {
        assert(sprites.take(i) =~= sprites);
    }
}

/// The draw records of every visible sprite at `now_ms`, in order: a sliced
/// sprite gets the next range of slice indices, any other its source
/// rectangle, with the frame of its animation (if it has one that resolves)
/// choosing its atlas cell.
pub fn my_extract_sprites_with_anime(
    sprites: &Vec<SpriteInput>,
    layouts: &Vec<AtlasLayout>,
    schedules: &Vec<AnimatedKeyframes>,
    now_ms: u64,
) -> (r: Vec<ExtractedSprite>)
    requires
        slices_total(sprites@) <= usize::MAX,
        times_fit(sprites@, now_ms as int),
    ensures
        r@ == extracted_of(sprites@, layouts@, schedules@, now_ms as int),
{
    let mut out: Vec<ExtractedSprite> = Vec::new();
    let mut slices: usize = 0;
    let mut i: usize = 0;
    proof {
        assert(sprites@.take(0) =~= Seq::<SpriteInput>::empty());
    }
    while i < sprites.len()
        invariant
            0 <= i <= sprites.len(),
            slices_total(sprites@) <= usize::MAX,
            times_fit(sprites@, now_ms as int),
            slices == slices_total(sprites@.take(i as int)),
            out@ == extracted_of(sprites@.take(i as int), layouts@, schedules@, now_ms as int),
        decreases sprites.len() - i,
    {
        let ghost pre = sprites@.take(i as int);
        proof {
            assert(sprites@.take(i as int + 1).drop_last() =~= pre);
            assert(sprites@.take(i as int + 1).last() == sprites@[i as int]);
            lemma_slices_prefix(sprites@, i as int + 1);
        }
        let s = &sprites[i];
        if s.visible {
            match s.slice_count {
                Some(c) => {
                    let end = slices + c;
                    out.push(
                        ExtractedSprite {
                            source: i,
                            kind: ExtractedKind::Slices { start: slices, end },
                        },
                    );
                    slices = end;
                },
                None => {
                    let rect = resolve_rect(s, layouts, schedules, now_ms);
                    out.push(ExtractedSprite { source: i, kind: ExtractedKind::Single { rect } });
                },
            }
        }
        i += 1;
    }
    proof {
        assert(sprites@.take(sprites@.len() as int) =~= sprites@);
    }
    out
}

} // verus!
