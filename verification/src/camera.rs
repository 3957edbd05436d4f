//! The camera/input controller: a pan state machine driven by the secondary
//! button and a zoom scalar driven by scroll input, clamped every frame.

use vstd::prelude::*;
use crate::layout::Pos;
use crate::model::{clamp_i64, clamp_int};

verus! {

/// Zoom is stored in thousandths; 1000 is scale 1.0.
pub const ZOOM_MIN_MILLI: i64 = 100;

/// Upper end of the zoom range, in thousandths.
pub const ZOOM_MAX_MILLI: i64 = 2000;

/// The camera state: the world-space point the view is centered on, the
/// zoom scalar, and the pan state machine (idle or dragging, with the last
/// seen pointer position).
#[derive(Debug, Clone, Copy, PartialEq, Eq, Structural)]
pub struct Camera {
    pub target_x: i64,
    pub target_y: i64,
    pub zoom_milli: i64,
    pub dragging: bool,
    pub last_x: i64,
    pub last_y: i64,
}

/// The camera invariant: zoom always sits inside its clamped range.
pub open spec fn cam_wf(c: Camera) -> bool {
    ZOOM_MIN_MILLI as int <= c.zoom_milli as int <= ZOOM_MAX_MILLI as int
}

/// Division truncating toward zero, the rounding the pan math uses.
pub open spec fn tdiv(a: int, b: int) -> int {
    if a >= 0 {
        a / b
    } else {
        -((-a) / b)
    }
}

/// What one scroll step does: the zoom moves by the given amount and is
/// clamped back into its range; nothing else changes.
pub open spec fn spec_apply_scroll(c: Camera, delta_milli: i64) -> Camera {
    Camera {
        zoom_milli: clamp_int(
            c.zoom_milli as int + delta_milli as int,
            ZOOM_MIN_MILLI as int,
            ZOOM_MAX_MILLI as int,
        ) as i64,
        ..c
    }
}

/// What one pointer step does. Idle becomes dragging on a pressed secondary
/// button, capturing the pointer; while dragging, the camera target moves
/// opposite the zoom-scaled pointer motion; releasing the button returns to
/// idle.
pub open spec fn spec_pointer_step(c: Camera, down: bool, p: Option<(i64, i64)>) -> Camera {
    let c1 = if down && !c.dragging {
        Camera {
            dragging: true,
            last_x: if p is Some { p->Some_0.0 } else { c.last_x },
            last_y: if p is Some { p->Some_0.1 } else { c.last_y },
            ..c
        }
    } else {
        c
    };
    if c1.dragging {
        let c2 = if p is Some {
            let px = p->Some_0.0;
            let py = p->Some_0.1;
            let dx = tdiv((px - c1.last_x) * 1000, c1.zoom_milli as int);
            let dy = tdiv((py - c1.last_y) * 1000, c1.zoom_milli as int);
            Camera {
                target_x: clamp_i64(c1.target_x - dx) as i64,
                target_y: clamp_i64(c1.target_y - dy) as i64,
                last_x: px,
                last_y: py,
                ..c1
            }
        } else {
            c1
        };
        if !down {
            Camera { dragging: false, ..c2 }
        } else {
            c2
        }
    } else {
        c1
    }
}

/// The inverse camera transform: a screen-space point back into world
/// space, undoing zoom about the given screen offset and re-adding the pan
/// target.
pub open spec fn spec_screen_to_world(c: Camera, sx: i64, sy: i64, ox: i64, oy: i64) -> Pos {
    Pos {
        x: clamp_i64(tdiv((sx - ox) * 1000, c.zoom_milli as int) + c.target_x) as i64,
        y: clamp_i64(tdiv((sy - oy) * 1000, c.zoom_milli as int) + c.target_y) as i64,
    }
}

/// However a scroll sequence ran, the zoom ends inside its range: each step
/// leaves it clamped, whatever state it started from.
pub proof fn lemma_zoom_always_clamped(c: Camera, delta_milli: i64)
    ensures
        cam_wf(spec_apply_scroll(c, delta_milli)),
{
}

/// Truncating division of `n` by a positive `d`.
fn div_trunc(n: i128, d: i128) -> (q: i128)
    requires
        d > 0,
        n != i128::MIN,
    ensures
        q == tdiv(n as int, d as int),
{
    if n >= 0 {
        (((n as u128) / (d as u128)) as i128)
    } else {
        proof {
            assert((((-n) as u128) / (d as u128)) as int == ((-n) as int) / (d as int));
        }
        -((((-n) as u128) / (d as u128)) as i128)
    }
}

/// Saturates an `i128` into the `i64` range.
fn to_i64_sat(x: i128) -> (r: i64)
    ensures
        r as int == clamp_i64(x as int),
{
    if x > i64::MAX as i128 {
        i64::MAX
    } else if x < i64::MIN as i128 {
        i64::MIN
    } else {
        x as i64
    }
}

impl Camera {
    /// The camera the application starts with: centered on the sample
    /// scene, unzoomed, idle.
    pub fn new() -> (c: Camera)
        ensures
            c == (Camera {
                target_x: 400,
                target_y: 450,
                zoom_milli: 1000,
                dragging: false,
                last_x: 0,
                last_y: 0,
            }),
            cam_wf(c),
    {
        Camera {
            target_x: 400,
            target_y: 450,
            zoom_milli: 1000,
            dragging: false,
            last_x: 0,
            last_y: 0,
        }
    }

    /// Applies one frame's scroll input: the zoom moves by `delta_milli`
    /// thousandths and is clamped into its range.
    pub fn apply_scroll(&mut self, delta_milli: i64)
        ensures
            *final(self) == spec_apply_scroll(*old(self), delta_milli),
            cam_wf(*final(self)),
    {
        let z: i128 = self.zoom_milli as i128 + delta_milli as i128;
        self.zoom_milli = if z < ZOOM_MIN_MILLI as i128 {
            ZOOM_MIN_MILLI
        } else if z > ZOOM_MAX_MILLI as i128 {
            ZOOM_MAX_MILLI
        } else {
            z as i64
        };
        proof {
            assert(*self =~= spec_apply_scroll(*old(self), delta_milli));
        }
    }

    /// Applies one frame's pointer input to the pan state machine.
    pub fn pointer_step(&mut self, secondary_down: bool, pointer: Option<(i64, i64)>)
        requires
            cam_wf(*old(self)),
        ensures
            *final(self) == spec_pointer_step(*old(self), secondary_down, pointer),
            cam_wf(*final(self)),
    {
        if secondary_down && !self.dragging {
            self.dragging = true;
            if let Some(p) = pointer {
                self.last_x = p.0;
                self.last_y = p.1;
            }
        }
        if self.dragging {
            if let Some(p) = pointer {
                let dx = div_trunc(
                    (p.0 as i128 - self.last_x as i128) * 1000,
                    self.zoom_milli as i128,
                );
                let dy = div_trunc(
                    (p.1 as i128 - self.last_y as i128) * 1000,
                    self.zoom_milli as i128,
                );
                self.target_x = to_i64_sat(self.target_x as i128 - dx);
                self.target_y = to_i64_sat(self.target_y as i128 - dy);
                self.last_x = p.0;
                self.last_y = p.1;
            }
            if !secondary_down {
                self.dragging = false;
            }
        }
        proof {
            assert(*self =~= spec_pointer_step(*old(self), secondary_down, pointer));
        }
    }

    /// Transforms a screen-space point into world space by inverting the
    /// current zoom and pan about the given screen offset.
    pub fn screen_to_world(&self, sx: i64, sy: i64, ox: i64, oy: i64) -> (w: Pos)
        requires
            cam_wf(*self),
        ensures
            w == spec_screen_to_world(*self, sx, sy, ox, oy),
    {
        let wx = div_trunc((sx as i128 - ox as i128) * 1000, self.zoom_milli as i128);
        let wy = div_trunc((sy as i128 - oy as i128) * 1000, self.zoom_milli as i128);
        Pos { x: to_i64_sat(wx + self.target_x as i128), y: to_i64_sat(wy + self.target_y as i128) }
    }
}

} // verus!
