use vstd::prelude::*;

use crate::geometry::{
    abs, clamp_to_world, clamp_world, overlap_h, overlap_w, overlaps, sign, Dir, Rect,
};

verus! {

/// What resolving a moving rectangle `a` with direction `v` against a
/// static rectangle `b` gives: the new rectangle, the new direction, and
/// whether the two overlapped.
///
/// When the overlap is wider than tall the bounce is vertical: `a` is pushed
/// out along y by the overlap's height, away from `b`'s centre, and the y
/// direction is made to point away from `b`. Otherwise the same is done
/// along x with the overlap's width.
pub open spec fn resolve(a: Rect, v: Dir, b: Rect) -> (Rect, Dir, bool) {
    if !overlaps(a, b) {
        (a, v, false)
    } else if overlap_w(a, b) > overlap_h(a, b) {
        let s = sign(b.center2_y() - a.center2_y());
        let y = clamp_world(a.y - s * overlap_h(a, b));
        let vy = if s > 0 { -abs(v.y as int) } else { abs(v.y as int) };
        (Rect { y: y as i64, ..a }, Dir { y: vy as i64, ..v }, true)
    } else {
        let s = sign(b.center2_x() - a.center2_x());
        let x = clamp_world(a.x - s * overlap_w(a, b));
        let vx = if s > 0 { -abs(v.x as int) } else { abs(v.x as int) };
        (Rect { x: x as i64, ..a }, Dir { x: vx as i64, ..v }, true)
    }
}

/// Bounces the moving rectangle `a`, travelling along `vel`, off the static
/// rectangle `b`; returns whether they overlapped. `b` is never changed.
pub fn resolve_collision(a: &mut Rect, vel: &mut Dir, b: &Rect) -> (hit: bool)
    requires
        old(a).wf(),
        old(vel).wf(),
        b.wf(),
    ensures
        (*final(a), *final(vel), hit) == resolve(*old(a), *old(vel), *b),
        final(a).wf(),
        final(vel).wf(),
        hit == overlaps(*old(a), *b),
        !hit ==> *final(a) == *old(a) && *final(vel) == *old(vel),
        hit && overlap_w(*old(a), *b) > overlap_h(*old(a), *b) ==> final(a).x == old(a).x
            && final(vel).x == old(vel).x,
        hit && overlap_h(*old(a), *b) > overlap_w(*old(a), *b) ==> final(a).y == old(a).y
            && final(vel).y == old(vel).y,
        final(a).w == old(a).w && final(a).h == old(a).h,
{
    match a.intersect(b) {
        None => false,
        Some(o) => {
            if o.w > o.h {
                let toward: i64 = (2 * b.y + b.h) - (2 * a.y + a.h);
                if toward >= 0 {
                    a.y = clamp_to_world(a.y - o.h);
                    vel.y = if vel.y < 0 { vel.y } else { -vel.y };
                } else {
                    a.y = clamp_to_world(a.y + o.h);
                    vel.y = if vel.y < 0 { -vel.y } else { vel.y };
                }
            } else {
                let toward: i64 = (2 * b.x + b.w) - (2 * a.x + a.w);
                if toward >= 0 {
                    a.x = clamp_to_world(a.x - o.w);
                    vel.x = if vel.x < 0 { vel.x } else { -vel.x };
                } else {
                    a.x = clamp_to_world(a.x + o.w);
                    vel.x = if vel.x < 0 { -vel.x } else { vel.x };
                }
            }
            true
        },
    }
}

} // verus!
