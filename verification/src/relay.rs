//! The neighbor relay ("screaming") pass.
//!
//! Within one gathered working set, every ordered (screamer, hearer) pair
//! with distinct indices is visited in lexicographic order. When the two
//! agents are within hearing radius, the screamer's progress counters plus
//! the hearing radius replace the hearer's counters wherever that lowers
//! them, and a hearer in the matching foraging state reorients toward the
//! screamer.

use vstd::prelude::*;
use crate::fixed::{
    MAX_EXTENT, cos_spec, sin_spec, cos_fixed, sin_fixed, atan2_spec, atan2_fixed,
    lemma_sin_bounds, lemma_atan2_range,
};
use crate::insect::{Insect, Foraging, dist2_spec, dist2};

verus! {

/// The hearer turned to face the screamer, its cached unit vector
/// recomputed.
pub open spec fn reorient_spec(hearer: Insect, scr: Insect) -> Insect {
    let a = atan2_spec(scr.y - hearer.y, scr.x - hearer.x);
    Insect { angle: a as i64, dir_x: cos_spec(a) as i64, dir_y: sin_spec(a) as i64, ..hearer }
}

/// One hearer after one scream: the base-direction rule, then the
/// food-direction rule. A rule fires when the screamer's counter plus the
/// hearing radius `hr` (in whole world units) is strictly below the
/// hearer's; it lowers the hearer's counter to that sum, and reorients the
/// hearer toward the screamer when the hearer's foraging state matches the
/// rule (returning to base for the base rule, searching for food for the
/// food rule).
pub open spec fn relay_hear_spec(scr: Insect, hearer: Insect, hr: int) -> Insect {
    let h1 = if scr.steps_from_base + hr < hearer.steps_from_base {
        let h2 = Insect { steps_from_base: (scr.steps_from_base + hr) as u32, ..hearer };
        if hearer.state == Foraging::ReturningToBase {
            reorient_spec(h2, scr)
        } else {
            h2
        }
    } else {
        hearer
    };
    if scr.steps_from_food + hr < h1.steps_from_food {
        let h3 = Insect { steps_from_food: (scr.steps_from_food + hr) as u32, ..h1 };
        if h1.state == Foraging::SearchingFood {
            reorient_spec(h3, scr)
        } else {
            h3
        }
    } else {
        h1
    }
}

/// One ordered pair visited: the hearer at `h` is updated when the indices
/// differ and the two agents are within the hearing radius (`hr_m`, in
/// milli-units).
pub open spec fn relay_pair_spec(v: Seq<Insect>, s: int, h: int, hr: int, hr_m: int) -> Seq<Insect> {
    if s != h && dist2_spec(v[s].x as int, v[s].y as int, v[h].x as int, v[h].y as int)
        < hr_m * hr_m {
        v.update(h, relay_hear_spec(v[s], v[h], hr))
    } else {
        v
    }
}

/// The working set after all pairs with screamer index below `s`, plus the
/// pairs of screamer `s` with hearer index below `h`, in lexicographic
/// order.
pub open spec fn relay_state_spec(
    v0: Seq<Insect>,
    n: int,
    s: int,
    h: int,
    hr: int,
    hr_m: int,
) -> Seq<Insect>
    decreases s, h,
{
    if h > 0 {
        relay_pair_spec(relay_state_spec(v0, n, s, h - 1, hr, hr_m), s, h - 1, hr, hr_m)
    } else if s > 0 {
        relay_state_spec(v0, n, s - 1, n, hr, hr_m)
    } else {
        v0
    }
}

/// The whole relay pass over a working set.
pub open spec fn relay_pass_spec(v0: Seq<Insect>, hr: int, hr_m: int) -> Seq<Insect> {
    relay_state_spec(v0, v0.len() as int, v0.len() as int, 0, hr, hr_m)
}

/// What every relay step preserves: length, positions, foraging states and
/// heading well-formedness, with no progress counter ever increasing.
pub open spec fn relay_preserves(v0: Seq<Insect>, v: Seq<Insect>) -> bool {
    &&& v.len() == v0.len()
    &&& forall|i: int| 0 <= i < v0.len() ==> {
        &&& (#[trigger] v[i]).x == v0[i].x
        &&& v[i].y == v0[i].y
        &&& v[i].state == v0[i].state
        &&& v[i].steps_from_base <= v0[i].steps_from_base
        &&& v[i].steps_from_food <= v0[i].steps_from_food
        &&& (v0[i].heading_ok() ==> v[i].heading_ok())
    }
}

/// One scream leaves the hearer's position and state alone, never raises a
/// counter, and keeps the heading cache consistent.
pub proof fn lemma_relay_hear(scr: Insect, hearer: Insect, hr: int)
    requires
        hr >= 0,
    ensures
        relay_hear_spec(scr, hearer, hr).x == hearer.x,
        relay_hear_spec(scr, hearer, hr).y == hearer.y,
        relay_hear_spec(scr, hearer, hr).state == hearer.state,
        relay_hear_spec(scr, hearer, hr).steps_from_base <= hearer.steps_from_base,
        relay_hear_spec(scr, hearer, hr).steps_from_food <= hearer.steps_from_food,
        hearer.heading_ok() ==> relay_hear_spec(scr, hearer, hr).heading_ok(),
{
    let a = atan2_spec(scr.y - hearer.y, scr.x - hearer.x);
    lemma_atan2_range(scr.y - hearer.y, scr.x - hearer.x);
    lemma_sin_bounds(a);
}

/// The relay pass preserves length, positions, states and headings, and
/// never raises a counter: the relay-monotonicity law.
pub proof fn lemma_relay_state_preserves(
    v0: Seq<Insect>,
    n: int,
    s: int,
    h: int,
    hr: int,
    hr_m: int,
)
    requires
        n == v0.len(),
        0 <= h <= n,
        0 <= s,
        hr >= 0,
    ensures
        relay_preserves(v0, relay_state_spec(v0, n, s, h, hr, hr_m)),
    decreases s, h,
{
    if h > 0 {
        lemma_relay_state_preserves(v0, n, s, h - 1, hr, hr_m);
        let v = relay_state_spec(v0, n, s, h - 1, hr, hr_m);
        lemma_relay_hear(v[s], v[h - 1], hr);
        let w = relay_pair_spec(v, s, h - 1, hr, hr_m);
        assert forall|i: int| 0 <= i < v0.len() implies {
            &&& (#[trigger] w[i]).x == v0[i].x
            &&& w[i].y == v0[i].y
            &&& w[i].state == v0[i].state
            &&& w[i].steps_from_base <= v0[i].steps_from_base
            &&& w[i].steps_from_food <= v0[i].steps_from_food
            &&& (v0[i].heading_ok() ==> w[i].heading_ok())
        } by {
            assert(relay_preserves(v0, v));
            assert(v[i].x == v0[i].x);
        }
    } else if s > 0 {
        lemma_relay_state_preserves(v0, n, s - 1, n, hr, hr_m);
    }
}

/// Relay monotonicity over the whole pass: no hearer's counter increases.
pub proof fn lemma_relay_monotone(v0: Seq<Insect>, hr: int, hr_m: int)
    requires
        hr >= 0,
    ensures
        relay_preserves(v0, relay_pass_spec(v0, hr, hr_m)),
{
    lemma_relay_state_preserves(v0, v0.len() as int, v0.len() as int, 0, hr, hr_m);
}

/// When every agent carries the same two counter values and the hearing
/// radius is positive, no relay rule can fire: the pass is the identity.
pub proof fn lemma_relay_state_uniform(
    v0: Seq<Insect>,
    n: int,
    s: int,
    h: int,
    hr: int,
    hr_m: int,
    base: int,
    food: int,
)
    requires
        n == v0.len(),
        0 <= h <= n,
        0 <= s <= n,
        h > 0 ==> s < n,
        hr >= 1,
        forall|i: int| 0 <= i < v0.len()
            ==> (#[trigger] v0[i]).steps_from_base == base && v0[i].steps_from_food == food,
    ensures
        relay_state_spec(v0, n, s, h, hr, hr_m) == v0,
    decreases s, h,
{
    if h > 0 {
        lemma_relay_state_uniform(v0, n, s, h - 1, hr, hr_m, base, food);
        assert(relay_state_spec(v0, n, s, h, hr, hr_m)
            == relay_pair_spec(v0, s, h - 1, hr, hr_m));
        assert(relay_hear_spec(v0[s], v0[h - 1], hr) == v0[h - 1]);
        assert(v0.update(h - 1, v0[h - 1]) =~= v0);
    } else if s > 0 {
        lemma_relay_state_uniform(v0, n, s - 1, n, hr, hr_m, base, food);
    }
}

/// The uniform-counters law for the whole pass.
pub proof fn lemma_relay_uniform(v0: Seq<Insect>, hr: int, hr_m: int, base: int, food: int)
    requires
        hr >= 1,
        forall|i: int| 0 <= i < v0.len()
            ==> (#[trigger] v0[i]).steps_from_base == base && v0[i].steps_from_food == food,
    ensures
        relay_pass_spec(v0, hr, hr_m) == v0,
{
    lemma_relay_state_uniform(v0, v0.len() as int, v0.len() as int, 0, hr, hr_m, base, food);
}

/// One scream, executable.
fn relay_hear(scr: &Insect, hearer: &Insect, hr: u32) -> (r: Insect)
    requires
        -MAX_EXTENT <= scr.x - hearer.x <= MAX_EXTENT,
        -MAX_EXTENT <= scr.y - hearer.y <= MAX_EXTENT,
    ensures
        r == relay_hear_spec(*scr, *hearer, hr as int),
{
    let mut cur = *hearer;
    if (scr.steps_from_base as u64) + (hr as u64) < (cur.steps_from_base as u64) {
        cur.steps_from_base = scr.steps_from_base + hr;
        let is_returning = match cur.state {
            Foraging::ReturningToBase => true,
            Foraging::SearchingFood => false,
        };
        if is_returning {
            let a = atan2_fixed(scr.y - hearer.y, scr.x - hearer.x);
            proof {
                lemma_sin_bounds(a as int);
            }
            cur.angle = a;
            cur.dir_x = cos_fixed(a);
            cur.dir_y = sin_fixed(a);
        }
    }
    if (scr.steps_from_food as u64) + (hr as u64) < (cur.steps_from_food as u64) {
        cur.steps_from_food = scr.steps_from_food + hr;
        let is_searching = match cur.state {
            Foraging::SearchingFood => true,
            Foraging::ReturningToBase => false,
        };
        if is_searching {
            let a = atan2_fixed(scr.y - hearer.y, scr.x - hearer.x);
            proof {
                lemma_sin_bounds(a as int);
            }
            cur.angle = a;
            cur.dir_x = cos_fixed(a);
            cur.dir_y = sin_fixed(a);
        }
    }
    cur
}

/// The whole relay pass over a gathered working set, executable.
pub fn relay_pass(v: Vec<Insect>, hr: u32, ext_x: i64, ext_y: i64) -> (r: Vec<Insect>)
    requires
        1 <= hr,
        (hr as int) * 1000 <= MAX_EXTENT,
        0 < ext_x <= MAX_EXTENT,
        0 < ext_y <= MAX_EXTENT,
        forall|i: int| 0 <= i < v@.len()
            ==> (#[trigger] v@[i]).wf(ext_x as int, ext_y as int),
    ensures
        r@ == relay_pass_spec(v@, hr as int, (hr as int) * 1000),
        forall|i: int| 0 <= i < r@.len()
            ==> (#[trigger] r@[i]).wf(ext_x as int, ext_y as int),
{
    let ghost v0 = v@;
    let ghost n = v@.len() as int;
    let ghost hri = hr as int;
    let ghost hrm = (hr as int) * 1000;
    let hr_m: i64 = (hr as i64) * 1000;
    let mut v = v;
    let len = v.len();
    let mut s: usize = 0;
    while s < len
        invariant
            0 <= s <= len,
            len == n == v0.len(),
            v@.len() == v0.len(),
            hri == hr as int,
            hrm == hr_m as int,
            hr_m == (hr as int) * 1000,
            1 <= hr,
            hrm <= MAX_EXTENT,
            0 < ext_x <= MAX_EXTENT,
            0 < ext_y <= MAX_EXTENT,
            v@ == relay_state_spec(v0, n, s as int, 0, hri, hrm),
            forall|i: int| 0 <= i < v0.len()
                ==> (#[trigger] v0[i]).wf(ext_x as int, ext_y as int),
            forall|i: int| 0 <= i < v@.len()
                ==> (#[trigger] v@[i]).wf(ext_x as int, ext_y as int),
        decreases len - s,
    {
        let mut h: usize = 0;
        while h < len
            invariant
                0 <= s < len,
                0 <= h <= len,
                len == n == v0.len(),
                v@.len() == v0.len(),
                hri == hr as int,
                hrm == hr_m as int,
                hr_m == (hr as int) * 1000,
                1 <= hr,
                hrm <= MAX_EXTENT,
                0 < ext_x <= MAX_EXTENT,
                0 < ext_y <= MAX_EXTENT,
                v@ == relay_state_spec(v0, n, s as int, h as int, hri, hrm),
                forall|i: int| 0 <= i < v0.len()
                    ==> (#[trigger] v0[i]).wf(ext_x as int, ext_y as int),
                forall|i: int| 0 <= i < v@.len()
                    ==> (#[trigger] v@[i]).wf(ext_x as int, ext_y as int),
            decreases len - h,
        {
            if s != h {
                let scr = v[s];
                let hearer = v[h];
                let d2 = dist2(scr.x, scr.y, hearer.x, hearer.y);
                proof {
                    assert(hrm * hrm <= MAX_EXTENT as int * MAX_EXTENT as int) by (nonlinear_arith)
                        requires 0 <= hrm <= MAX_EXTENT as int,
                    ;
                }
                if d2 < hr_m * hr_m {
                    let updated = relay_hear(&scr, &hearer, hr);
                    proof {
                        lemma_relay_hear(scr, hearer, hri);
                    }
                    v[h] = updated;
                }
            }
            proof {
                assert(v@ == relay_state_spec(v0, n, s as int, h as int + 1, hri, hrm));
            }
            h = h + 1;
        }
        proof {
            assert(relay_state_spec(v0, n, s as int + 1, 0, hri, hrm)
                == relay_state_spec(v0, n, s as int, n, hri, hrm));
        }
        s = s + 1;
    }
    v
}

} // verus!
