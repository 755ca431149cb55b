//! The camera: pan offset and zoom factor for the canvas view. Positions
//! are whole world units and the zoom factor is kept in thousandths, so
//! the view transform is exact integer arithmetic.

use vstd::prelude::*;

verus! {

/// One arrow-key nudge, in world units.
pub const PAN_STEP: i64 = 10;

/// Furthest the camera may pan from the origin on either axis, chosen well
/// inside `i64` so the view transform can never overflow.
pub const POS_LIMIT: i64 = 1_000_000_000;

/// Smallest zoom factor, in thousandths: deliberate hardening so zoom can
/// never reach zero or turn negative.
pub const ZOOM_MIN_MILLIS: i64 = 100;

/// Largest zoom factor, in thousandths: deliberate hardening against
/// runaway zoom.
pub const ZOOM_MAX_MILLIS: i64 = 10_000;

/// The neutral zoom factor, 1.0, in thousandths.
pub const ZOOM_UNIT_MILLIS: i64 = 1_000;

pub open spec fn clamp_spec(v: int, lo: int, hi: int) -> int {
    if v < lo {
        lo
    } else if v > hi {
        hi
    } else {
        v
    }
}

/// Pan offset (world units) and zoom factor (thousandths of neutral).
#[derive(Clone, Copy, Debug)]
pub struct Camera {
    pub x: i64,
    pub y: i64,
    pub zoom_millis: i64,
}

impl Camera {
    /// The camera's invariant: position within the pan bounds, zoom
    /// positive and within the zoom bounds.
    pub open spec fn wf(self) -> bool {
        &&& -POS_LIMIT <= self.x <= POS_LIMIT
        &&& -POS_LIMIT <= self.y <= POS_LIMIT
        &&& ZOOM_MIN_MILLIS <= self.zoom_millis <= ZOOM_MAX_MILLIS
    }

    /// The camera at the origin with neutral zoom.
    pub fn new() -> (r: Camera)
        ensures
            r.x == 0,
            r.y == 0,
            r.zoom_millis == ZOOM_UNIT_MILLIS,
            r.wf(),
    {
        Camera { x: 0, y: 0, zoom_millis: ZOOM_UNIT_MILLIS }
    }

    /// World point to screen point: the camera offset is subtracted on the
    /// x axis and added on the y axis (the y sign follows the screen's
    /// flipped vertical axis).
    pub fn adjusted_pos(&self, wx: i64, wy: i64) -> (r: (i64, i64))
        requires
            self.wf(),
            -POS_LIMIT <= wx <= POS_LIMIT,
            -POS_LIMIT <= wy <= POS_LIMIT,
        ensures
            r.0 == wx - self.x,
            r.1 == wy + self.y,
    {
        (wx - self.x, wy + self.y)
    }

    /// The screen radius of a node marker, in thousandths: ten world units
    /// scaled by the zoom factor.
    pub fn marker_radius_millis(&self) -> (r: i64)
        requires
            self.wf(),
        ensures
            r == 10 * self.zoom_millis,
    {
        10 * self.zoom_millis
    }

    pub fn pan_left(&mut self)
        requires
            old(self).wf(),
        ensures
            final (self).wf(),
            final (self).x == clamp_spec(old(self).x - PAN_STEP, -POS_LIMIT as int, POS_LIMIT as int),
            final (self).y == old(self).y,
            final (self).zoom_millis == old(self).zoom_millis,
    {
        let nx = self.x - PAN_STEP;
        self.x = if nx < -POS_LIMIT {
            -POS_LIMIT
        } else {
            nx
        };
    }

    pub fn pan_right(&mut self)
        requires
            old(self).wf(),
        ensures
            final (self).wf(),
            final (self).x == clamp_spec(old(self).x + PAN_STEP, -POS_LIMIT as int, POS_LIMIT as int),
            final (self).y == old(self).y,
            final (self).zoom_millis == old(self).zoom_millis,
    {
        let nx = self.x + PAN_STEP;
        self.x = if nx > POS_LIMIT {
            POS_LIMIT
        } else {
            nx
        };
    }

    pub fn pan_up(&mut self)
        requires
            old(self).wf(),
        ensures
            final (self).wf(),
            final (self).y == clamp_spec(old(self).y + PAN_STEP, -POS_LIMIT as int, POS_LIMIT as int),
            final (self).x == old(self).x,
            final (self).zoom_millis == old(self).zoom_millis,
    {
        let ny = self.y + PAN_STEP;
        self.y = if ny > POS_LIMIT {
            POS_LIMIT
        } else {
            ny
        };
    }

    pub fn pan_down(&mut self)
        requires
            old(self).wf(),
        ensures
            final (self).wf(),
            final (self).y == clamp_spec(old(self).y - PAN_STEP, -POS_LIMIT as int, POS_LIMIT as int),
            final (self).x == old(self).x,
            final (self).zoom_millis == old(self).zoom_millis,
    {
        let ny = self.y - PAN_STEP;
        self.y = if ny < -POS_LIMIT {
            -POS_LIMIT
        } else {
            ny
        };
    }

    /// Adds the scroll delta (in thousandths) to the zoom factor, clamped
    /// into the zoom bounds.
    pub fn zoom_by(&mut self, delta_millis: i64)
        requires
            old(self).wf(),
        ensures
            final (self).wf(),
            final (self).zoom_millis == clamp_spec(
                old(self).zoom_millis + delta_millis,
                ZOOM_MIN_MILLIS as int,
                ZOOM_MAX_MILLIS as int,
            ),
            final (self).x == old(self).x,
            final (self).y == old(self).y,
    {
        if delta_millis >= 0 {
            if delta_millis > ZOOM_MAX_MILLIS - self.zoom_millis {
                self.zoom_millis = ZOOM_MAX_MILLIS;
            } else {
                self.zoom_millis = self.zoom_millis + delta_millis;
            }
        } else {
            if delta_millis < ZOOM_MIN_MILLIS - self.zoom_millis {
                self.zoom_millis = ZOOM_MIN_MILLIS;
            } else {
                self.zoom_millis = self.zoom_millis + delta_millis;
            }
        }
    }
}

} // verus!
