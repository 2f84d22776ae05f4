//! Scroll state of the message viewport: the maximum scroll follows the
//! rendered line count and pane height, and the snap-to-bottom policy
//! overshoots by a fixed margin so the newest line stays visible.

use vstd::prelude::*;

verus! {

/// The margin added when snapping to the bottom, to absorb wrapping
/// miscalculations.
pub const SNAP_MARGIN: u16 = 5;

/// The basic maximum scroll: the lines that do not fit the viewport.
pub open spec fn spec_max_scroll(total: int, height: int) -> int {
    if total > height {
        total - height
    } else {
        0
    }
}

/// The scroll offset after a recomputation. When snapping, the offset
/// overshoots the maximum by the margin, capped so the last line index is
/// never passed; otherwise the current offset is clamped to the maximum.
pub open spec fn spec_scroll_offset(total: int, height: int, snap: bool, offset: int) -> int {
    if snap {
        if total > height {
            let target = total - height + SNAP_MARGIN;
            if target <= total - 1 {
                target
            } else {
                total - 1
            }
        } else {
            0
        }
    } else {
        if offset <= spec_max_scroll(total, height) {
            offset
        } else {
            spec_max_scroll(total, height)
        }
    }
}

/// The maximum scroll after a recomputation: raised to the snap target when
/// snapping would pass it.
pub open spec fn spec_adjusted_max(total: int, height: int, snap: bool, offset: int) -> int {
    let m = spec_max_scroll(total, height);
    let o = spec_scroll_offset(total, height, snap, offset);
    if snap && o > m {
        o
    } else {
        m
    }
}

/// Recompute the scroll state from the rendered line count and the viewport
/// height: returns the new offset and the new maximum. The offset never
/// leaves `[0, maximum]`.
pub fn compute_scroll(total: u16, height: u16, snap: bool, offset: u16) -> (r: (u16, u16))
    ensures
        r.0 as int == spec_scroll_offset(total as int, height as int, snap, offset as int),
        r.1 as int == spec_adjusted_max(total as int, height as int, snap, offset as int),
        0 <= r.0 <= r.1,
{
    let max0: u16 = if total > height {
        total - height
    } else {
        0
    };
    if snap {
        let off: u16 = if total > height {
            let base: u16 = total - height;
            let target: u32 = base as u32 + SNAP_MARGIN as u32;
            if target <= (total - 1) as u32 {
                base + SNAP_MARGIN
            } else {
                total - 1
            }
        } else {
            0
        };
        let max = if max0 >= off {
            max0
        } else {
            off
        };
        (off, max)
    } else {
        let off = if offset <= max0 {
            offset
        } else {
            max0
        };
        (off, max0)
    }
}

} // verus!
