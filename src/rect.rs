//! Source rectangles: atlas cells, manual sub-rectangles and how the two
//! combine.

use vstd::prelude::*;

verus! {

/// An axis-aligned rectangle in texture pixels, given by its minimum and
/// maximum corners.
#[derive(Debug, Clone, Copy, PartialEq, Eq, Structural)]
pub struct Rect {
    pub min_x: i64,
    pub min_y: i64,
    pub max_x: i64,
    pub max_y: i64,
}

/// `x` held within the range of `i64`.
pub open spec fn clamp_i64(x: int) -> i64 {
    if x > i64::MAX {
        i64::MAX
    } else if x < i64::MIN {
        i64::MIN
    } else {
        x as i64
    }
}

/// Rectangle `m` moved by the minimum corner of `origin`; coordinates that
/// would leave the range of `i64` stop at its bounds.
pub open spec fn translated(m: Rect, origin: Rect) -> Rect {
    Rect {
        min_x: clamp_i64(m.min_x + origin.min_x),
        min_y: clamp_i64(m.min_y + origin.min_y),
        max_x: clamp_i64(m.max_x + origin.min_x),
        max_y: clamp_i64(m.max_y + origin.min_y),
    }
}

/// The rectangle that an atlas cell and a manual rectangle give together:
/// either one alone is used as it is, and with both the manual rectangle is
/// read relative to the cell's minimum corner.
pub open spec fn composed(atlas: Option<Rect>, manual: Option<Rect>) -> Option<Rect> {
    match (atlas, manual) {
        (None, None) => None,
        (None, Some(m)) => Some(m),
        (Some(a), None) => Some(a),
        (Some(a), Some(m)) => Some(translated(m, a)),
    }
}

/// Sum of two coordinates, held within the range of `i64`.
fn add_clamped(a: i64, b: i64) -> (r: i64)
    ensures
        r == clamp_i64(a + b),
{
    match a.checked_add(b) {
        Some(v) => v,
        None => if b > 0 {
            i64::MAX
        } else {
            i64::MIN
        },
    }
}

/// Combines an atlas cell and a manual rectangle: `None` when both are
/// absent, the one present when only one is, and otherwise the manual
/// rectangle translated by the cell's minimum corner.
pub fn compose_rect(atlas: Option<Rect>, manual: Option<Rect>) -> (r: Option<Rect>)
    ensures
        r == composed(atlas, manual),
{
    match (atlas, manual) {
        (None, None) => None,
        (None, Some(m)) => Some(m),
        (Some(a), None) => Some(a),
        (Some(a), Some(m)) => Some(
            Rect {
                min_x: add_clamped(m.min_x, a.min_x),
                min_y: add_clamped(m.min_y, a.min_y),
                max_x: add_clamped(m.max_x, a.min_x),
                max_y: add_clamped(m.max_y, a.min_y),
            },
        ),
    }
}

/// Composing an atlas cell with the all-zero manual rectangle gives the cell
/// itself when the cell is a single point: both corners of the result are the
/// cell's minimum corner, moved by zero.
pub proof fn lemma_compose_zero(a: Rect)
    requires
        a.max_x == a.min_x,
        a.max_y == a.min_y,
    ensures
        composed(Some(a), Some(Rect { min_x: 0, min_y: 0, max_x: 0, max_y: 0 })) == Some(a),
{
}

/// A texture atlas layout: the cell rectangle of each atlas index.
pub struct AtlasLayout {
    pub textures: Vec<Rect>,
}

impl AtlasLayout {
    /// The cell of `index`, or `None` when the layout has no such cell.
    pub fn texture_rect(&self, index: usize) -> (r: Option<Rect>)
        ensures
            r == if index < self.textures@.len() {
                Some(self.textures@[index as int])
            } else {
                None
            },
    {
        if index < self.textures.len() {
            Some(self.textures[index])
        } else {
            None
        }
    }
}

} // verus!
