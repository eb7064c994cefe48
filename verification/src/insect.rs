//! Mobile foraging agents.
//!
//! An insect carries a position, a heading stored redundantly as a
//! tenth-degree angle plus its cached unit vector (scaled by 1000), two
//! foraging-progress counters, and a foraging state. The movement phase
//! perturbs the heading and advances the position with toroidal wrap; the
//! collision phase reacts to Food and Base landmarks of the insect's cell.

use vstd::prelude::*;
use crate::fixed::{
    MAX_EXTENT, MAX_TURN,
    cos_spec, sin_spec, cos_fixed, sin_fixed,
    wrap_angle_spec, wrap_angle, wrap_coord_spec, wrap_coord,
    scaled_step_spec, scaled_step, sat_inc_spec, sat_inc,
    sqrt_floor, isqrt,
    lemma_sin_bounds, lemma_sqrt_floor,
};
use crate::landmark::{Landmark, LandmarkKind};
use crate::rng::rand_in_range;

verus! {

/// What an agent is currently looking for.
#[derive(Clone, Copy, Debug, PartialEq, Eq, Structural)]
pub enum Foraging {
    SearchingFood,
    ReturningToBase,
}

/// A mobile agent. Coordinates are world milli-units; `dir_x`/`dir_y` cache
/// the unit vector of `angle`, scaled by 1000.
#[derive(Clone, Copy, Debug, PartialEq, Eq, Structural)]
pub struct Insect {
    pub x: i64,
    pub y: i64,
    pub dir_x: i64,
    pub dir_y: i64,
    pub angle: i64,
    pub steps_from_food: u32,
    pub steps_from_base: u32,
    pub state: Foraging,
}

/// Squared Euclidean distance between two points in milli-units.
pub open spec fn dist2_spec(ax: int, ay: int, bx: int, by: int) -> int {
    (ax - bx) * (ax - bx) + (ay - by) * (ay - by)
}

/// Executable squared distance.
pub fn dist2(ax: i64, ay: i64, bx: i64, by: i64) -> (r: i64)
    requires
        -MAX_EXTENT <= ax <= MAX_EXTENT,
        -MAX_EXTENT <= ay <= MAX_EXTENT,
        -MAX_EXTENT <= bx <= MAX_EXTENT,
        -MAX_EXTENT <= by <= MAX_EXTENT,
    ensures
        r == dist2_spec(ax as int, ay as int, bx as int, by as int),
        0 <= r <= 8_000_000_000_000_000_000,
{
    proof {
        assert(0 <= (ax - bx) * (ax - bx) <= 4_000_000_000_000_000_000) by (nonlinear_arith)
            requires -2_000_000_000 <= ax - bx <= 2_000_000_000,
        ;
        assert(0 <= (ay - by) * (ay - by) <= 4_000_000_000_000_000_000) by (nonlinear_arith)
            requires -2_000_000_000 <= ay - by <= 2_000_000_000,
        ;
    }
    let dx = ax - bx;
    let dy = ay - by;
    dx * dx + dy * dy
}

impl Insect {
    /// The cached unit vector agrees with the angle and the angle is
    /// normalized.
    pub open spec fn heading_ok(self) -> bool {
        &&& 0 <= self.angle < 3600
        &&& self.dir_x == cos_spec(self.angle as int)
        &&& self.dir_y == sin_spec(self.angle as int)
    }

    /// The position lies within the world extent, per axis.
    pub open spec fn in_world(self, ext_x: int, ext_y: int) -> bool {
        &&& 0 <= self.x < ext_x
        &&& 0 <= self.y < ext_y
    }

    /// Full well-formedness with respect to a world extent in milli-units.
    pub open spec fn wf(self, ext_x: int, ext_y: int) -> bool {
        &&& self.heading_ok()
        &&& self.in_world(ext_x, ext_y)
    }

    /// An insect at a given position and heading, with the cached unit
    /// vector computed from the angle.
    pub fn new(
        x: i64,
        y: i64,
        angle: i64,
        steps_from_food: u32,
        steps_from_base: u32,
        state: Foraging,
    ) -> (r: Insect)
        requires
            0 <= angle < 3600,
        ensures
            r == (Insect {
                x,
                y,
                dir_x: cos_spec(angle as int) as i64,
                dir_y: sin_spec(angle as int) as i64,
                angle,
                steps_from_food,
                steps_from_base,
                state,
            }),
            r.heading_ok(),
    {
        proof {
            lemma_sin_bounds(angle as int);
        }
        let dir_x = cos_fixed(angle);
        let dir_y = sin_fixed(angle);
        Insect { x, y, dir_x, dir_y, angle, steps_from_food, steps_from_base, state }
    }
}

/// How one movement step relates the old and the new agent: the heading
/// turns by `turn` tenth-degrees, the unit vector is recomputed, the
/// position advances by `speed` milli-units along it with one toroidal wrap
/// per axis, and both progress counters go up by one, saturating.
pub open spec fn is_move_of(
    pre: Insect,
    post: Insect,
    turn: int,
    speed: int,
    ext_x: int,
    ext_y: int,
) -> bool {
    let a = wrap_angle_spec(pre.angle + turn);
    &&& post.angle == a
    &&& post.dir_x == cos_spec(a)
    &&& post.dir_y == sin_spec(a)
    &&& post.x == wrap_coord_spec(pre.x + scaled_step_spec(cos_spec(a), speed), ext_x)
    &&& post.y == wrap_coord_spec(pre.y + scaled_step_spec(sin_spec(a), speed), ext_y)
    &&& post.steps_from_food == sat_inc_spec(pre.steps_from_food as int)
    &&& post.steps_from_base == sat_inc_spec(pre.steps_from_base as int)
    &&& post.state == pre.state
}

/// The movement relation with the perturbation abstracted away: some turn
/// of at most ten degrees either way produced the new agent.
pub open spec fn moved_from(pre: Insect, post: Insect, speed: int, ext_x: int, ext_y: int) -> bool {
    exists|t: int| -MAX_TURN <= t <= MAX_TURN && is_move_of(pre, post, t, speed, ext_x, ext_y)
}

impl Insect {
    /// One movement step with a chosen heading perturbation.
    pub fn moved(&self, turn: i64, speed: i64, ext_x: i64, ext_y: i64) -> (r: Insect)
        requires
            self.wf(ext_x as int, ext_y as int),
            -MAX_TURN <= turn <= MAX_TURN,
            0 < ext_x <= MAX_EXTENT,
            0 < ext_y <= MAX_EXTENT,
            0 <= speed <= ext_x,
            speed <= ext_y,
        ensures
            is_move_of(*self, r, turn as int, speed as int, ext_x as int, ext_y as int),
            r.wf(ext_x as int, ext_y as int),
    {
        let a = wrap_angle(self.angle + turn);
        proof {
            lemma_sin_bounds(a as int);
        }
        let dir_x = cos_fixed(a);
        let dir_y = sin_fixed(a);
        let step_x = scaled_step(dir_x, speed);
        let step_y = scaled_step(dir_y, speed);
        let x = wrap_coord(self.x + step_x, ext_x);
        let y = wrap_coord(self.y + step_y, ext_y);
        Insect {
            x,
            y,
            dir_x,
            dir_y,
            angle: a,
            steps_from_food: sat_inc(self.steps_from_food),
            steps_from_base: sat_inc(self.steps_from_base),
            state: self.state,
        }
    }

    /// One movement step with a random heading perturbation of at most
    /// ten degrees either way.
    pub fn move_pos(
        &self,
        speed: i64,
        ext_x: i64,
        ext_y: i64,
        rng: &mut rand::rngs::StdRng,
    ) -> (r: Insect)
        requires
            self.wf(ext_x as int, ext_y as int),
            0 < ext_x <= MAX_EXTENT,
            0 < ext_y <= MAX_EXTENT,
            0 <= speed <= ext_x,
            speed <= ext_y,
        ensures
            moved_from(*self, r, speed as int, ext_x as int, ext_y as int),
            r.wf(ext_x as int, ext_y as int),
    {
        let turn = rand_in_range(rng, -MAX_TURN, MAX_TURN + 1);
        let r = self.moved(turn, speed, ext_x, ext_y);
        proof {
            assert(-MAX_TURN <= turn as int <= MAX_TURN
                && is_move_of(*self, r, turn as int, speed as int, ext_x as int, ext_y as int));
        }
        r
    }
}

/// Whether a landmark captures the agent: strictly inside the radius for
/// Food, inside or on it for Base.
pub open spec fn fires(i: Insect, lm: Landmark) -> bool {
    let d2 = dist2_spec(i.x as int, i.y as int, lm.x as int, lm.y as int);
    match lm.kind {
        LandmarkKind::Food => d2 < lm.radius_milli() * lm.radius_milli(),
        LandmarkKind::Base => d2 <= lm.radius_milli() * lm.radius_milli(),
    }
}

/// The agent after one fired collision: the heading reflects by half a
/// turn, the agent is pushed out along the new heading by the capture
/// radius minus its distance to the landmark plus a five-unit margin (with
/// toroidal wrap), and the counter and state of the landmark's kind are
/// reset: Food starts the return to base, Base restarts the food search.
pub open spec fn collided_one_spec(i: Insect, lm: Landmark, ext_x: int, ext_y: int) -> Insect {
    let a = wrap_angle_spec(i.angle + 1800);
    let dx = cos_spec(a);
    let dy = sin_spec(a);
    let dist = sqrt_floor(dist2_spec(i.x as int, i.y as int, lm.x as int, lm.y as int));
    let push = lm.radius_milli() - dist + 5000;
    Insect {
        x: wrap_coord_spec(i.x + scaled_step_spec(dx, push), ext_x) as i64,
        y: wrap_coord_spec(i.y + scaled_step_spec(dy, push), ext_y) as i64,
        dir_x: dx as i64,
        dir_y: dy as i64,
        angle: a as i64,
        steps_from_food: if lm.kind == LandmarkKind::Base { 0 } else { i.steps_from_food },
        steps_from_base: if lm.kind == LandmarkKind::Food { 0 } else { i.steps_from_base },
        state: if lm.kind == LandmarkKind::Food {
            Foraging::ReturningToBase
        } else {
            Foraging::SearchingFood
        },
    }
}

/// The agent after scanning the cell's landmarks of one kind in list
/// order, applying every collision that fires; the flag records whether
/// any fired.
pub open spec fn collide_kind_spec(
    i: Insect,
    lms: Seq<Landmark>,
    kind: LandmarkKind,
    ext_x: int,
    ext_y: int,
) -> (Insect, bool)
    decreases lms.len(),
{
    if lms.len() == 0 {
        (i, false)
    } else {
        let prev = collide_kind_spec(i, lms.drop_last(), kind, ext_x, ext_y);
        let lm = lms.last();
        if lm.kind == kind && fires(prev.0, lm) {
            (collided_one_spec(prev.0, lm, ext_x, ext_y), true)
        } else {
            prev
        }
    }
}

/// The agent after one full collision pass over its cell's landmarks: the
/// Food landmarks are scanned first; the Base landmarks are scanned only
/// when no Food collision fired, so a Food collision's state takes
/// precedence within the tick.
pub open spec fn collide_cell_spec(i: Insect, lms: Seq<Landmark>, ext_x: int, ext_y: int) -> Insect {
    let food = collide_kind_spec(i, lms, LandmarkKind::Food, ext_x, ext_y);
    if food.1 {
        food.0
    } else {
        collide_kind_spec(food.0, lms, LandmarkKind::Base, ext_x, ext_y).0
    }
}

impl Insect {
    /// One fired collision, executable.
    fn collide_one(&self, lm: &Landmark, ext_x: i64, ext_y: i64) -> (r: Insect)
        requires
            self.wf(ext_x as int, ext_y as int),
            lm.fits(ext_x as int, ext_y as int),
            0 < ext_x <= MAX_EXTENT,
            0 < ext_y <= MAX_EXTENT,
            fires(*self, *lm),
        ensures
            r == collided_one_spec(*self, *lm, ext_x as int, ext_y as int),
            r.wf(ext_x as int, ext_y as int),
    {
        let a = wrap_angle(self.angle + 1800);
        proof {
            lemma_sin_bounds(a as int);
        }
        let dir_x = cos_fixed(a);
        let dir_y = sin_fixed(a);
        let d2 = dist2(self.x, self.y, lm.x, lm.y);
        let dist = isqrt(d2);
        let rad = (lm.radius as i64) * 1000;
        proof {
            let d2i = dist2_spec(self.x as int, self.y as int, lm.x as int, lm.y as int);
            lemma_sqrt_floor(d2i);
            assert(sqrt_floor(d2i) <= rad as int) by (nonlinear_arith)
                requires
                    0 <= sqrt_floor(d2i),
                    0 <= rad,
                    sqrt_floor(d2i) * sqrt_floor(d2i) <= d2i,
                    d2i <= rad as int * rad as int,
            ;
        }
        let push = rad - dist + 5000;
        let step_x = scaled_step(dir_x, push);
        let step_y = scaled_step(dir_y, push);
        let x = wrap_coord(self.x + step_x, ext_x);
        let y = wrap_coord(self.y + step_y, ext_y);
        match lm.kind {
            LandmarkKind::Food => Insect {
                x,
                y,
                dir_x,
                dir_y,
                angle: a,
                steps_from_food: self.steps_from_food,
                steps_from_base: 0,
                state: Foraging::ReturningToBase,
            },
            LandmarkKind::Base => Insect {
                x,
                y,
                dir_x,
                dir_y,
                angle: a,
                steps_from_food: 0,
                steps_from_base: self.steps_from_base,
                state: Foraging::SearchingFood,
            },
        }
    }

    /// One full collision pass over the landmarks of the agent's own cell.
    pub fn collided(&self, lms: &Vec<Landmark>, ext_x: i64, ext_y: i64) -> (r: Insect)
        requires
            self.wf(ext_x as int, ext_y as int),
            0 < ext_x <= MAX_EXTENT,
            0 < ext_y <= MAX_EXTENT,
            forall|j: int| 0 <= j < lms@.len() ==> (#[trigger] lms@[j]).fits(ext_x as int, ext_y as int),
        ensures
            r == collide_cell_spec(*self, lms@, ext_x as int, ext_y as int),
            r.wf(ext_x as int, ext_y as int),
    {
        let ghost exi = ext_x as int;
        let ghost eyi = ext_y as int;
        let mut cur = *self;
        let mut fired = false;
        let mut j: usize = 0;
        while j < lms.len()
            invariant
                0 <= j <= lms@.len(),
                self.wf(exi, eyi),
                cur.wf(exi, eyi),
                0 < ext_x <= MAX_EXTENT,
                0 < ext_y <= MAX_EXTENT,
                exi == ext_x as int,
                eyi == ext_y as int,
                forall|k: int| 0 <= k < lms@.len() ==> (#[trigger] lms@[k]).fits(exi, eyi),
                cur == collide_kind_spec(*self, lms@.take(j as int), LandmarkKind::Food, exi, eyi).0,
                fired == collide_kind_spec(*self, lms@.take(j as int), LandmarkKind::Food, exi, eyi).1,
            decreases lms@.len() - j,
        {
            let lm = lms[j];
            proof {
                assert(lms@.take(j as int + 1).drop_last() =~= lms@.take(j as int));
                assert(lms@.take(j as int + 1).last() == lms@[j as int]);
            }
            let is_food = match lm.kind {
                LandmarkKind::Food => true,
                LandmarkKind::Base => false,
            };
            if is_food {
                let d2 = dist2(cur.x, cur.y, lm.x, lm.y);
                let rad = (lm.radius as i64) * 1000;
                proof {
                    assert(rad as int * rad as int <= 65535000 * 65535000) by (nonlinear_arith)
                        requires 0 <= rad as int <= 65535000,
                    ;
                }
                if d2 < rad * rad {
                    cur = cur.collide_one(&lm, ext_x, ext_y);
                    fired = true;
                }
            }
            j = j + 1;
        }
        proof {
            assert(lms@.take(lms@.len() as int) =~= lms@);
        }
        if !fired {
            let ghost mid = cur;
            let mut k: usize = 0;
            while k < lms.len()
                invariant
                    0 <= k <= lms@.len(),
                    mid.wf(exi, eyi),
                    cur.wf(exi, eyi),
                    0 < ext_x <= MAX_EXTENT,
                    0 < ext_y <= MAX_EXTENT,
                    exi == ext_x as int,
                    eyi == ext_y as int,
                    forall|m: int| 0 <= m < lms@.len() ==> (#[trigger] lms@[m]).fits(exi, eyi),
                    cur == collide_kind_spec(mid, lms@.take(k as int), LandmarkKind::Base, exi, eyi).0,
                decreases lms@.len() - k,
            {
                let lm = lms[k];
                proof {
                    assert(lms@.take(k as int + 1).drop_last() =~= lms@.take(k as int));
                    assert(lms@.take(k as int + 1).last() == lms@[k as int]);
                }
                let is_base = match lm.kind {
                    LandmarkKind::Food => false,
                    LandmarkKind::Base => true,
                };
                if is_base {
                    let d2 = dist2(cur.x, cur.y, lm.x, lm.y);
                    let rad = (lm.radius as i64) * 1000;
                    proof {
                        assert(rad as int * rad as int <= 65535000 * 65535000) by (nonlinear_arith)
                            requires 0 <= rad as int <= 65535000,
                        ;
                    }
                    if d2 <= rad * rad {
                        cur = cur.collide_one(&lm, ext_x, ext_y);
                    }
                }
                k = k + 1;
            }
            proof {
                assert(lms@.take(lms@.len() as int) =~= lms@);
            }
        }
        cur
    }
}

/// The heading invariant: a well-formed agent's cached unit vector is
/// exactly the fixed-point cosine and sine of its cached angle, and the
/// angle is normalized. Every phase of the tick pipeline returns
/// well-formed agents, so this holds after any phase.
pub proof fn lemma_heading_invariant(i: Insect, ext_x: int, ext_y: int)
    requires
        i.wf(ext_x, ext_y),
    ensures
        i.dir_x == cos_spec(i.angle as int),
        i.dir_y == sin_spec(i.angle as int),
        0 <= i.angle < 3600,
        0 <= i.x < ext_x,
        0 <= i.y < ext_y,
{
}

/// A collision pass over an empty landmark list leaves the agent as it is.
pub proof fn lemma_collide_empty(i: Insect, lms: Seq<Landmark>, ext_x: int, ext_y: int)
    requires
        lms.len() == 0,
    ensures
        collide_cell_spec(i, lms, ext_x, ext_y) == i,
{
}

/// A kind-scan that fired nothing left the agent untouched.
pub proof fn lemma_collide_kind_no_fire(
    i: Insect,
    lms: Seq<Landmark>,
    kind: LandmarkKind,
    ext_x: int,
    ext_y: int,
)
    requires
        !collide_kind_spec(i, lms, kind, ext_x, ext_y).1,
    ensures
        collide_kind_spec(i, lms, kind, ext_x, ext_y).0 == i,
    decreases lms.len(),
{
    if lms.len() > 0 {
        lemma_collide_kind_no_fire(i, lms.drop_last(), kind, ext_x, ext_y);
    }
}

/// After a Food scan in which some collision fired, the agent's
/// steps-from-base counter is zero and it is returning to base.
pub proof fn lemma_collide_food_fired(i: Insect, lms: Seq<Landmark>, ext_x: int, ext_y: int)
    requires
        collide_kind_spec(i, lms, LandmarkKind::Food, ext_x, ext_y).1,
    ensures
        collide_kind_spec(i, lms, LandmarkKind::Food, ext_x, ext_y).0.steps_from_base == 0,
        collide_kind_spec(i, lms, LandmarkKind::Food, ext_x, ext_y).0.state
            == Foraging::ReturningToBase,
    decreases lms.len(),
{
    if lms.len() > 0 {
        let prev = collide_kind_spec(i, lms.drop_last(), LandmarkKind::Food, ext_x, ext_y);
        let lm = lms.last();
        if !(lm.kind == LandmarkKind::Food && fires(prev.0, lm)) {
            lemma_collide_food_fired(i, lms.drop_last(), ext_x, ext_y);
        }
    }
}

/// A Food landmark with a positive radius whose center coincides with the
/// agent's position always fires during the Food scan.
pub proof fn lemma_food_at_center_fires(
    i: Insect,
    lms: Seq<Landmark>,
    j: int,
    ext_x: int,
    ext_y: int,
)
    requires
        0 <= j < lms.len(),
        lms[j].kind == LandmarkKind::Food,
        lms[j].x == i.x,
        lms[j].y == i.y,
        lms[j].radius >= 1,
    ensures
        collide_kind_spec(i, lms, LandmarkKind::Food, ext_x, ext_y).1,
    decreases lms.len(),
{
    let prev = collide_kind_spec(i, lms.drop_last(), LandmarkKind::Food, ext_x, ext_y);
    if j < lms.len() - 1 {
        lemma_food_at_center_fires(i, lms.drop_last(), j, ext_x, ext_y);
    } else {
        if !prev.1 {
            lemma_collide_kind_no_fire(i, lms.drop_last(), LandmarkKind::Food, ext_x, ext_y);
            let lm = lms.last();
            assert(lm == lms[j]);
            assert(dist2_spec(i.x as int, i.y as int, lm.x as int, lm.y as int) == 0)
                by (nonlinear_arith)
                requires lm.x == i.x, lm.y == i.y,
            ;
            assert(lm.radius_milli() * lm.radius_milli() > 0) by (nonlinear_arith)
                requires lm.radius_milli() >= 1000,
            ;
            assert(fires(prev.0, lm));
        }
    }
}

/// An agent standing exactly at the center of a Food landmark with a
/// positive radius always leaves the collision pass with
/// `steps_from_base == 0`, returning to base.
pub proof fn lemma_collision_reset(i: Insect, lms: Seq<Landmark>, j: int, ext_x: int, ext_y: int)
    requires
        0 <= j < lms.len(),
        lms[j].kind == LandmarkKind::Food,
        lms[j].x == i.x,
        lms[j].y == i.y,
        lms[j].radius >= 1,
    ensures
        collide_cell_spec(i, lms, ext_x, ext_y).steps_from_base == 0,
        collide_cell_spec(i, lms, ext_x, ext_y).state == Foraging::ReturningToBase,
{
    lemma_food_at_center_fires(i, lms, j, ext_x, ext_y);
    lemma_collide_food_fired(i, lms, ext_x, ext_y);
}

} // verus!
