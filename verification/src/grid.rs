//! The spatial grid: a 2D array of cells, each owning the agents currently
//! inside it and the landmarks permanently assigned to it, plus the four
//! tick phases Move, Collide, Relay and Rebucket.
//!
//! Cell bounds are half-open on both axes, so every in-world position lies
//! in exactly one cell and the rebucket phase neither drops nor duplicates
//! an agent.

use vstd::prelude::*;
use crate::fixed::MAX_EXTENT;
use crate::insect::{Insect, Foraging, moved_from, collide_cell_spec};
use crate::landmark::{Landmark, LandmarkKind};
use crate::relay::{relay_pass_spec, relay_pass};
use crate::rng::rand_in_range;

verus! {

/// One bucket of the grid, an axis-aligned rectangle at grid coordinates
/// `(x, y)` spanning `[x * cell_size, (x + 1) * cell_size)` world units per
/// axis.
#[derive(Debug)]
pub struct Cell {
    pub insects: Vec<Insect>,
    pub landmarks: Vec<Landmark>,
    pub x: u32,
    pub y: u32,
}

/// Why a grid cannot be built.
#[derive(Clone, Copy, Debug, PartialEq, Eq, Structural)]
pub enum GridError {
    /// A grid dimension is zero.
    ZeroDimension,
    /// The landmark placement margin is at least half the cell size, so
    /// the inset placement range is empty.
    EmptyPlacementRange,
}

/// The whole simulation surface.
#[derive(Debug)]
pub struct Grid {
    pub grid: Vec<Cell>,
    pub width: u32,
    pub height: u32,
    pub cell_size: u32,
}

/// The concatenation of a sequence of sequences, in order.
pub open spec fn concat_seqs<T>(ls: Seq<Seq<T>>) -> Seq<T>
    decreases ls.len(),
{
    if ls.len() == 0 {
        Seq::empty()
    } else {
        concat_seqs(ls.drop_last()) + ls.last()
    }
}

/// The insect list of every cell, in cell order.
pub open spec fn insect_lists(cells: Seq<Cell>) -> Seq<Seq<Insect>> {
    cells.map(|i: int, c: Cell| c.insects@)
}

/// The landmark list of every cell, in cell order.
pub open spec fn landmark_lists(cells: Seq<Cell>) -> Seq<Seq<Landmark>> {
    cells.map(|i: int, c: Cell| c.landmarks@)
}

/// How many landmarks of one kind the lists hold in total.
pub open spec fn count_kind(ls: Seq<Seq<Landmark>>, kind: LandmarkKind) -> int
    decreases ls.len(),
{
    if ls.len() == 0 {
        0
    } else {
        count_kind(ls.drop_last(), kind)
            + ls.last().filter(|l: Landmark| l.kind == kind).len()
    }
}

/// Whether a position lies within the half-open bounds of the cell at grid
/// coordinates `(cx, cy)`, with `cs_m` the cell size in milli-units.
pub open spec fn in_cell_spec(i: Insect, cx: int, cy: int, cs_m: int) -> bool {
    &&& cx * cs_m <= i.x < (cx + 1) * cs_m
    &&& cy * cs_m <= i.y < (cy + 1) * cs_m
}

impl Cell {
    /// Well-formedness of the cell standing at index `idx` of a grid with
    /// the given dimensions: its coordinates match the index, its agents
    /// are well formed, and its landmarks lie inside its own bounds with a
    /// capture radius the world can absorb.
    pub open spec fn wf(self, width: int, height: int, cell_size: int, idx: int) -> bool {
        let cs_m = cell_size * 1000;
        let ex = width * cell_size * 1000;
        let ey = height * cell_size * 1000;
        &&& self.x as int == idx % width
        &&& self.y as int == idx / width
        &&& forall|i: int| 0 <= i < self.insects@.len()
            ==> (#[trigger] self.insects@[i]).wf(ex, ey)
        &&& forall|j: int| 0 <= j < self.landmarks@.len()
            ==> (#[trigger] self.landmarks@[j]).fits(ex, ey)
        &&& forall|j: int| 0 <= j < self.landmarks@.len() ==> {
            &&& self.x as int * cs_m <= (#[trigger] self.landmarks@[j]).x
                <= (self.x as int + 1) * cs_m
            &&& self.y as int * cs_m <= self.landmarks@[j].y <= (self.y as int + 1) * cs_m
        }
    }
}

impl Grid {
    /// The world extent along x, in milli-units.
    pub open spec fn ext_x(self) -> int {
        self.width as int * self.cell_size as int * 1000
    }

    /// The world extent along y, in milli-units.
    pub open spec fn ext_y(self) -> int {
        self.height as int * self.cell_size as int * 1000
    }

    /// The number of cells.
    pub open spec fn n_cells(self) -> int {
        self.width as int * self.height as int
    }

    /// Grid well-formedness: positive dimensions within the model's size
    /// limits, one cell per grid coordinate in row-major order, and every
    /// cell well formed.
    pub open spec fn wf(self) -> bool {
        &&& 1 <= self.width
        &&& 1 <= self.height
        &&& 1 <= self.cell_size
        &&& self.width as int * self.cell_size as int <= 1_000_000
        &&& self.height as int * self.cell_size as int <= 1_000_000
        &&& self.width as int * self.height as int <= 1_000_000
        &&& self.grid@.len() == self.n_cells()
        &&& forall|c: int| 0 <= c < self.grid@.len()
            ==> (#[trigger] self.grid@[c]).wf(
                self.width as int, self.height as int, self.cell_size as int, c)
    }
}

/// Basic consequences of grid well-formedness.
pub proof fn lemma_grid_bounds(g: Grid)
    requires
        g.wf(),
    ensures
        1000 <= g.ext_x() <= MAX_EXTENT,
        1000 <= g.ext_y() <= MAX_EXTENT,
        1 <= g.n_cells() <= 1_000_000,
{
    assert(1 <= g.width as int * g.cell_size as int) by (nonlinear_arith)
        requires 1 <= g.width, 1 <= g.cell_size,
    ;
    assert(1 <= g.height as int * g.cell_size as int) by (nonlinear_arith)
        requires 1 <= g.height, 1 <= g.cell_size,
    ;
    assert(1 <= g.width as int * g.height as int) by (nonlinear_arith)
        requires 1 <= g.width, 1 <= g.height,
    ;
}

/// The grid-array index of the k-th member of a cell's 3-by-3
/// neighborhood, in row-major slot order, or None when that neighbor falls
/// outside the grid.
pub open spec fn neighbor_slot(cx: int, cy: int, w: int, h: int, k: int) -> Option<int> {
    let dx = k % 3 - 1;
    let dy = k / 3 - 1;
    if 0 <= cx + dx < w && 0 <= cy + dy < h {
        Some((cx + dx) + w * (cy + dy))
    } else {
        None
    }
}

/// A neighbor index always addresses a grid cell.
pub proof fn lemma_neighbor_slot_in_range(cx: int, cy: int, w: int, h: int, k: int)
    requires
        0 <= cx < w,
        0 <= cy < h,
        0 <= k < 9,
    ensures
        neighbor_slot(cx, cy, w, h, k) matches Some(idx) ==> 0 <= idx < w * h,
{
    let dx = k % 3 - 1;
    let dy = k / 3 - 1;
    if 0 <= cx + dx < w && 0 <= cy + dy < h {
        assert(0 <= (cx + dx) + w * (cy + dy) < w * h) by (nonlinear_arith)
            requires
                0 <= cx + dx < w,
                0 <= cy + dy < h,
        ;
    }
}

/// One slot of the 3-by-3 neighborhood, executable.
fn neighbor_of(cx: u32, cy: u32, w: u32, h: u32, k: usize) -> (r: Option<usize>)
    requires
        cx < w,
        cy < h,
        w as int * h as int <= 1_000_000,
        k < 9,
    ensures
        r is Some <==> neighbor_slot(cx as int, cy as int, w as int, h as int, k as int) is Some,
        r matches Some(u)
            ==> neighbor_slot(cx as int, cy as int, w as int, h as int, k as int)
                == Some(u as int),
{
    proof {
        lemma_neighbor_slot_in_range(cx as int, cy as int, w as int, h as int, k as int);
    }
    let dx = (k % 3) as i64 - 1;
    let dy = (k / 3) as i64 - 1;
    let nx = cx as i64 + dx;
    let ny = cy as i64 + dy;
    if 0 <= nx && nx < w as i64 && 0 <= ny && ny < h as i64 {
        proof {
            assert(nx + w as int * ny < 1_000_000) by (nonlinear_arith)
                requires
                    0 <= nx < w as int,
                    0 <= ny < h as int,
                    w as int * h as int <= 1_000_000,
            ;
            assert(0 <= w as int * ny) by (nonlinear_arith)
                requires 0 <= ny, 0 < w as int,
            ;
        }
        Some((nx + w as i64 * ny) as usize)
    } else {
        None
    }
}

/// The indices of a cell's 3-by-3 neighborhood in slot order: slot
/// `(dx + 1) + 3 * (dy + 1)` holds the neighbor displaced by `(dx, dy)`
/// grid cells, or None where the grid ends. `cell_pos` must lie within
/// `map_size` and the grid may hold at most a million cells.
pub fn get_neightboring_cells(cell_pos: &[u32; 2], map_size: &[u32; 2]) -> (r: [Option<usize>; 9])
    requires
        cell_pos[0] < map_size[0],
        cell_pos[1] < map_size[1],
        map_size[0] as int * map_size[1] as int <= 1_000_000,
    ensures
        forall|k: int| 0 <= k < 9 ==> ((#[trigger] r[k]) is Some
            <==> neighbor_slot(
                cell_pos[0] as int, cell_pos[1] as int,
                map_size[0] as int, map_size[1] as int, k) is Some),
        forall|k: int| 0 <= k < 9 ==> ((#[trigger] r[k]) matches Some(u)
            ==> neighbor_slot(
                cell_pos[0] as int, cell_pos[1] as int,
                map_size[0] as int, map_size[1] as int, k) == Some(u as int)),
{
    let cx = cell_pos[0];
    let cy = cell_pos[1];
    let w = map_size[0];
    let h = map_size[1];
    let r: [Option<usize>; 9] = [
        neighbor_of(cx, cy, w, h, 0),
        neighbor_of(cx, cy, w, h, 1),
        neighbor_of(cx, cy, w, h, 2),
        neighbor_of(cx, cy, w, h, 3),
        neighbor_of(cx, cy, w, h, 4),
        neighbor_of(cx, cy, w, h, 5),
        neighbor_of(cx, cy, w, h, 6),
        neighbor_of(cx, cy, w, h, 7),
        neighbor_of(cx, cy, w, h, 8),
    ];
    r
}

/// A copy of a landmark list.
fn clone_landmarks(v: &Vec<Landmark>) -> (r: Vec<Landmark>)
    ensures
        r@ == v@,
{
    let mut r: Vec<Landmark> = Vec::new();
    let mut i: usize = 0;
    while i < v.len()
        invariant
            0 <= i <= v@.len(),
            r@ == v@.take(i as int),
        decreases v@.len() - i,
    {
        r.push(v[i]);
        proof {
            assert(v@.take(i as int + 1) =~= v@.take(i as int).push(v@[i as int]));
        }
        i = i + 1;
    }
    proof {
        assert(v@.take(v@.len() as int) =~= v@);
    }
    r
}

/// A copy of an insect list.
fn clone_insects(v: &Vec<Insect>) -> (r: Vec<Insect>)
    ensures
        r@ == v@,
{
    let mut r: Vec<Insect> = Vec::new();
    let mut i: usize = 0;
    while i < v.len()
        invariant
            0 <= i <= v@.len(),
            r@ == v@.take(i as int),
        decreases v@.len() - i,
    {
        r.push(v[i]);
        proof {
            assert(v@.take(i as int + 1) =~= v@.take(i as int).push(v@[i as int]));
        }
        i = i + 1;
    }
    proof {
        assert(v@.take(v@.len() as int) =~= v@);
    }
    r
}

impl Grid {
    /// Every agent of the grid, in cell order then list order.
    pub fn get_insects(&self) -> (r: Vec<Insect>)
        ensures
            r@ == concat_seqs(insect_lists(self.grid@)),
    {
        let ghost ls = insect_lists(self.grid@);
        let mut r: Vec<Insect> = Vec::new();
        let mut c: usize = 0;
        while c < self.grid.len()
            invariant
                0 <= c <= self.grid@.len(),
                ls == insect_lists(self.grid@),
                r@ == concat_seqs(ls.take(c as int)),
            decreases self.grid@.len() - c,
        {
            let cell = &self.grid[c];
            let mut t: usize = 0;
            while t < cell.insects.len()
                invariant
                    0 <= t <= cell.insects@.len(),
                    cell == &self.grid[c as int],
                    0 <= c < self.grid@.len(),
                    ls == insect_lists(self.grid@),
                    r@ == concat_seqs(ls.take(c as int)) + cell.insects@.take(t as int),
                decreases cell.insects@.len() - t,
            {
                r.push(cell.insects[t]);
                proof {
                    assert(cell.insects@.take(t as int + 1)
                        =~= cell.insects@.take(t as int).push(cell.insects@[t as int]));
                }
                t = t + 1;
            }
            proof {
                assert(ls.take(c as int + 1).drop_last() =~= ls.take(c as int));
                assert(ls.take(c as int + 1).last() == ls[c as int]);
                assert(cell.insects@.take(cell.insects@.len() as int) =~= cell.insects@);
                assert(r@ =~= concat_seqs(ls.take(c as int + 1)));
            }
            c = c + 1;
        }
        proof {
            assert(ls.take(ls.len() as int) =~= ls);
        }
        r
    }

    /// Every landmark of one kind, in cell order then list order.
    fn landmarks_of_kind(&self, kind: LandmarkKind) -> (r: Vec<Landmark>)
        ensures
            r@ == concat_seqs(landmark_lists(self.grid@)).filter(
                |l: Landmark| l.kind == kind),
    {
        let ghost pred = |l: Landmark| l.kind == kind;
        let ghost flat = concat_seqs(landmark_lists(self.grid@));
        let ghost ls = landmark_lists(self.grid@);
        let mut r: Vec<Landmark> = Vec::new();
        let mut c: usize = 0;
        while c < self.grid.len()
            invariant
                0 <= c <= self.grid@.len(),
                ls == landmark_lists(self.grid@),
                pred == (|l: Landmark| l.kind == kind),
                r@ == concat_seqs(ls.take(c as int)).filter(pred),
            decreases self.grid@.len() - c,
        {
            let cell = &self.grid[c];
            let mut t: usize = 0;
            while t < cell.landmarks.len()
                invariant
                    0 <= t <= cell.landmarks@.len(),
                    cell == &self.grid[c as int],
                    0 <= c < self.grid@.len(),
                    ls == landmark_lists(self.grid@),
                    pred == (|l: Landmark| l.kind == kind),
                    r@ == (concat_seqs(ls.take(c as int))
                        + cell.landmarks@.take(t as int)).filter(pred),
                decreases cell.landmarks@.len() - t,
            {
                let lm = cell.landmarks[t];
                let ghost before = concat_seqs(ls.take(c as int)) + cell.landmarks@.take(t as int);
                let ghost after = concat_seqs(ls.take(c as int))
                    + cell.landmarks@.take(t as int + 1);
                proof {
                    assert(after =~= before.push(cell.landmarks@[t as int]));
                    reveal(Seq::filter);
                    assert(after.drop_last() =~= before);
                    assert(after.filter(pred) == if pred(cell.landmarks@[t as int]) {
                        before.filter(pred).push(cell.landmarks@[t as int])
                    } else {
                        before.filter(pred)
                    });
                }
                let keep = match lm.kind {
                    LandmarkKind::Food => match kind {
                        LandmarkKind::Food => true,
                        LandmarkKind::Base => false,
                    },
                    LandmarkKind::Base => match kind {
                        LandmarkKind::Food => false,
                        LandmarkKind::Base => true,
                    },
                };
                if keep {
                    r.push(lm);
                }
                t = t + 1;
            }
            proof {
                assert(ls.take(c as int + 1).drop_last() =~= ls.take(c as int));
                assert(ls.take(c as int + 1).last() == ls[c as int]);
                assert(cell.landmarks@.take(cell.landmarks@.len() as int) =~= cell.landmarks@);
                assert(concat_seqs(ls.take(c as int)) + cell.landmarks@
                    =~= concat_seqs(ls.take(c as int + 1)));
            }
            c = c + 1;
        }
        proof {
            assert(ls.take(ls.len() as int) =~= ls);
        }
        r
    }

    /// Every Base landmark of the grid.
    pub fn get_bases(&self) -> (r: Vec<Landmark>)
        ensures
            r@ == concat_seqs(landmark_lists(self.grid@)).filter(
                |l: Landmark| l.kind == LandmarkKind::Base),
    {
        self.landmarks_of_kind(LandmarkKind::Base)
    }

    /// Every Food landmark of the grid.
    pub fn get_food_sources(&self) -> (r: Vec<Landmark>)
        ensures
            r@ == concat_seqs(landmark_lists(self.grid@)).filter(
                |l: Landmark| l.kind == LandmarkKind::Food),
    {
        self.landmarks_of_kind(LandmarkKind::Food)
    }
}

impl Grid {
    /// The world extent along x in milli-units, executable.
    fn ext_x_milli(&self) -> (r: i64)
        requires
            self.wf(),
        ensures
            r == self.ext_x(),
            1000 <= r <= MAX_EXTENT,
    {
        proof {
            lemma_grid_bounds(*self);
        }
        self.width as i64 * self.cell_size as i64 * 1000
    }

    /// The world extent along y in milli-units, executable.
    fn ext_y_milli(&self) -> (r: i64)
        requires
            self.wf(),
        ensures
            r == self.ext_y(),
            1000 <= r <= MAX_EXTENT,
    {
        proof {
            lemma_grid_bounds(*self);
        }
        self.height as i64 * self.cell_size as i64 * 1000
    }

    /// The movement phase: every agent, independently, turns by a random
    /// perturbation of at most ten degrees either way, advances by `speed`
    /// milli-units along its new heading with one toroidal wrap per axis,
    /// and counts one more step on both progress counters. Cell
    /// membership, landmarks and dimensions are untouched.
    pub fn move_insects(self, speed: i64, rng: &mut rand::rngs::StdRng) -> (r: Grid)
        requires
            self.wf(),
            0 <= speed,
            speed <= self.ext_x(),
            speed <= self.ext_y(),
        ensures
            r.wf(),
            r.width == self.width,
            r.height == self.height,
            r.cell_size == self.cell_size,
            r.grid@.len() == self.grid@.len(),
            forall|c: int| 0 <= c < r.grid@.len() ==> {
                &&& (#[trigger] r.grid@[c]).landmarks@ == self.grid@[c].landmarks@
                &&& r.grid@[c].x == self.grid@[c].x
                &&& r.grid@[c].y == self.grid@[c].y
                &&& r.grid@[c].insects@.len() == self.grid@[c].insects@.len()
            },
            forall|c: int, i: int|
                0 <= c < r.grid@.len() && 0 <= i < r.grid@[c].insects@.len()
                    ==> moved_from(
                        self.grid@[c].insects@[i],
                        #[trigger] r.grid@[c].insects@[i],
                        speed as int,
                        self.ext_x(),
                        self.ext_y(),
                    ),
    {
        proof {
            lemma_grid_bounds(self);
        }
        let ext_x = self.ext_x_milli();
        let ext_y = self.ext_y_milli();
        let mut cells: Vec<Cell> = Vec::new();
        let mut c: usize = 0;
        while c < self.grid.len()
            invariant
                0 <= c <= self.grid@.len(),
                self.wf(),
                ext_x == self.ext_x(),
                ext_y == self.ext_y(),
                1000 <= ext_x <= MAX_EXTENT,
                1000 <= ext_y <= MAX_EXTENT,
                0 <= speed <= ext_x,
                speed <= ext_y,
                cells@.len() == c,
                forall|d: int| 0 <= d < c ==> {
                    &&& (#[trigger] cells@[d]).landmarks@ == self.grid@[d].landmarks@
                    &&& cells@[d].x == self.grid@[d].x
                    &&& cells@[d].y == self.grid@[d].y
                    &&& cells@[d].insects@.len() == self.grid@[d].insects@.len()
                },
                forall|d: int, i: int|
                    0 <= d < c && 0 <= i < cells@[d].insects@.len()
                        ==> moved_from(
                            self.grid@[d].insects@[i],
                            #[trigger] cells@[d].insects@[i],
                            speed as int,
                            self.ext_x(),
                            self.ext_y(),
                        ),
                forall|d: int, i: int|
                    0 <= d < c && 0 <= i < cells@[d].insects@.len()
                        ==> (#[trigger] cells@[d].insects@[i]).wf(self.ext_x(), self.ext_y()),
            decreases self.grid@.len() - c,
        {
            let cell = &self.grid[c];
            let mut moved: Vec<Insect> = Vec::new();
            let mut i: usize = 0;
            while i < cell.insects.len()
                invariant
                    0 <= i <= cell.insects@.len(),
                    cell == &self.grid[c as int],
                    0 <= c < self.grid@.len(),
                    self.wf(),
                    ext_x == self.ext_x(),
                    ext_y == self.ext_y(),
                    1000 <= ext_x <= MAX_EXTENT,
                    1000 <= ext_y <= MAX_EXTENT,
                    0 <= speed <= ext_x,
                    speed <= ext_y,
                    moved@.len() == i,
                    forall|k: int| 0 <= k < i ==> moved_from(
                        cell.insects@[k],
                        #[trigger] moved@[k],
                        speed as int,
                        self.ext_x(),
                        self.ext_y(),
                    ),
                    forall|k: int| 0 <= k < i
                        ==> (#[trigger] moved@[k]).wf(self.ext_x(), self.ext_y()),
                decreases cell.insects@.len() - i,
            {
                let ins = cell.insects[i];
                let m = ins.move_pos(speed, ext_x, ext_y, rng);
                moved.push(m);
                proof {
                    assert(moved@[i as int] == m);
                    assert(moved_from(cell.insects@[i as int], moved@[i as int],
                        speed as int, self.ext_x(), self.ext_y()));
                }
                i = i + 1;
            }
            let landmarks = clone_landmarks(&cell.landmarks);
            cells.push(Cell { insects: moved, landmarks, x: cell.x, y: cell.y });
            proof {
                assert(cells@[c as int].insects@ == moved@);
                assert forall|d: int, i2: int|
                    0 <= d < c + 1 && 0 <= i2 < cells@[d].insects@.len()
                        implies moved_from(
                            self.grid@[d].insects@[i2],
                            #[trigger] cells@[d].insects@[i2],
                            speed as int,
                            self.ext_x(),
                            self.ext_y(),
                        ) by {
                    if d == c {
                        assert(cells@[d].insects@[i2] == moved@[i2]);
                    }
                }
            }
            c = c + 1;
        }
        let r = Grid {
            grid: cells,
            width: self.width,
            height: self.height,
            cell_size: self.cell_size,
        };
        proof {
            assert forall|c2: int| 0 <= c2 < r.grid@.len() implies (#[trigger] r.grid@[c2]).wf(
                r.width as int, r.height as int, r.cell_size as int, c2) by {
                assert(self.grid@[c2].wf(
                    self.width as int, self.height as int, self.cell_size as int, c2));
            }
        }
        r
    }

    /// The collision phase: every agent, independently, scans its own
    /// cell's Food landmarks in list order and then, when no Food
    /// collision fired, the Base landmarks. Landmarks, cell membership and
    /// dimensions are untouched.
    pub fn collisions(self) -> (r: Grid)
        requires
            self.wf(),
        ensures
            r.wf(),
            r.width == self.width,
            r.height == self.height,
            r.cell_size == self.cell_size,
            r.grid@.len() == self.grid@.len(),
            forall|c: int| 0 <= c < r.grid@.len() ==> {
                &&& (#[trigger] r.grid@[c]).landmarks@ == self.grid@[c].landmarks@
                &&& r.grid@[c].x == self.grid@[c].x
                &&& r.grid@[c].y == self.grid@[c].y
                &&& r.grid@[c].insects@.len() == self.grid@[c].insects@.len()
            },
            forall|c: int, i: int|
                0 <= c < r.grid@.len() && 0 <= i < r.grid@[c].insects@.len()
                    ==> #[trigger] r.grid@[c].insects@[i] == collide_cell_spec(
                        self.grid@[c].insects@[i],
                        self.grid@[c].landmarks@,
                        self.ext_x(),
                        self.ext_y(),
                    ),
    {
        proof {
            lemma_grid_bounds(self);
        }
        let ext_x = self.ext_x_milli();
        let ext_y = self.ext_y_milli();
        let mut cells: Vec<Cell> = Vec::new();
        let mut c: usize = 0;
        while c < self.grid.len()
            invariant
                0 <= c <= self.grid@.len(),
                self.wf(),
                ext_x == self.ext_x(),
                ext_y == self.ext_y(),
                1000 <= ext_x <= MAX_EXTENT,
                1000 <= ext_y <= MAX_EXTENT,
                cells@.len() == c,
                forall|d: int| 0 <= d < c ==> {
                    &&& (#[trigger] cells@[d]).landmarks@ == self.grid@[d].landmarks@
                    &&& cells@[d].x == self.grid@[d].x
                    &&& cells@[d].y == self.grid@[d].y
                    &&& cells@[d].insects@.len() == self.grid@[d].insects@.len()
                },
                forall|d: int, i: int|
                    0 <= d < c && 0 <= i < cells@[d].insects@.len()
                        ==> #[trigger] cells@[d].insects@[i] == collide_cell_spec(
                            self.grid@[d].insects@[i],
                            self.grid@[d].landmarks@,
                            self.ext_x(),
                            self.ext_y(),
                        ),
                forall|d: int, i: int|
                    0 <= d < c && 0 <= i < cells@[d].insects@.len()
                        ==> (#[trigger] cells@[d].insects@[i]).wf(self.ext_x(), self.ext_y()),
            decreases self.grid@.len() - c,
        {
            let cell = &self.grid[c];
            let mut hit: Vec<Insect> = Vec::new();
            let mut i: usize = 0;
            while i < cell.insects.len()
                invariant
                    0 <= i <= cell.insects@.len(),
                    cell == &self.grid[c as int],
                    0 <= c < self.grid@.len(),
                    self.wf(),
                    ext_x == self.ext_x(),
                    ext_y == self.ext_y(),
                    1000 <= ext_x <= MAX_EXTENT,
                    1000 <= ext_y <= MAX_EXTENT,
                    hit@.len() == i,
                    forall|k: int| 0 <= k < i ==> #[trigger] hit@[k] == collide_cell_spec(
                        cell.insects@[k],
                        cell.landmarks@,
                        self.ext_x(),
                        self.ext_y(),
                    ),
                    forall|k: int| 0 <= k < i
                        ==> (#[trigger] hit@[k]).wf(self.ext_x(), self.ext_y()),
                decreases cell.insects@.len() - i,
            {
                let ins = cell.insects[i];
                let m = ins.collided(&cell.landmarks, ext_x, ext_y);
                hit.push(m);
                i = i + 1;
            }
            let landmarks = clone_landmarks(&cell.landmarks);
            cells.push(Cell { insects: hit, landmarks, x: cell.x, y: cell.y });
            c = c + 1;
        }
        let r = Grid {
            grid: cells,
            width: self.width,
            height: self.height,
            cell_size: self.cell_size,
        };
        proof {
            assert forall|c2: int| 0 <= c2 < r.grid@.len() implies (#[trigger] r.grid@[c2]).wf(
                r.width as int, r.height as int, r.cell_size as int, c2) by {
                assert(self.grid@[c2].wf(
                    self.width as int, self.height as int, self.cell_size as int, c2));
            }
        }
        r
    }
}

/// The agents out of `flat` that fall in the half-open bounds of the cell
/// at grid coordinates `(cx, cy)`, in `flat` order.
pub open spec fn bucket_of(flat: Seq<Insect>, cx: int, cy: int, cs_m: int) -> Seq<Insect> {
    flat.filter(|i: Insect| in_cell_spec(i, cx, cy, cs_m))
}

/// Every element of a concatenation is well formed when every element of
/// every part is.
proof fn lemma_concat_insects_wf(ls: Seq<Seq<Insect>>, ex: int, ey: int)
    requires
        forall|j: int, t: int| 0 <= j < ls.len() && 0 <= t < ls[j].len()
            ==> (#[trigger] ls[j][t]).wf(ex, ey),
    ensures
        forall|k: int| 0 <= k < concat_seqs(ls).len()
            ==> (#[trigger] concat_seqs(ls)[k]).wf(ex, ey),
    decreases ls.len(),
{
    if ls.len() > 0 {
        lemma_concat_insects_wf(ls.drop_last(), ex, ey);
        assert forall|k: int| 0 <= k < concat_seqs(ls).len()
            implies (#[trigger] concat_seqs(ls)[k]).wf(ex, ey) by {
            let pre = concat_seqs(ls.drop_last());
            if k < pre.len() {
                assert(concat_seqs(ls)[k] == pre[k]);
            } else {
                assert(concat_seqs(ls)[k] == ls.last()[k - pre.len()]);
                assert(ls.last() == ls[ls.len() - 1]);
            }
        }
    }
}

/// Every element of a filtered sequence is well formed when every element
/// of the unfiltered one is.
proof fn lemma_filter_insects_wf(s: Seq<Insect>, pred: spec_fn(Insect) -> bool, ex: int, ey: int)
    requires
        forall|j: int| 0 <= j < s.len() ==> (#[trigger] s[j]).wf(ex, ey),
    ensures
        forall|k: int| 0 <= k < s.filter(pred).len()
            ==> (#[trigger] s.filter(pred)[k]).wf(ex, ey),
    decreases s.len(),
{
    reveal(Seq::filter);
    if s.len() > 0 {
        assert(forall|j: int| 0 <= j < s.drop_last().len()
            ==> #[trigger] s.drop_last()[j] == s[j]);
        lemma_filter_insects_wf(s.drop_last(), pred, ex, ey);
        let sub = s.drop_last().filter(pred);
        assert forall|k: int| 0 <= k < s.filter(pred).len()
            implies (#[trigger] s.filter(pred)[k]).wf(ex, ey) by {
            if pred(s.last()) {
                assert(s.filter(pred) == sub.push(s.last()));
                if k < sub.len() {
                    assert(s.filter(pred)[k] == sub[k]);
                } else {
                    assert(s.filter(pred)[k] == s.last());
                    assert(s.last() == s[s.len() - 1]);
                }
            } else {
                assert(s.filter(pred) == sub);
            }
        }
    }
}

/// Exactly one cell's half-open bounds contain an in-world position: the
/// cell at grid coordinates `(x / cell_size, y / cell_size)`, and no
/// other. This is the rebucket-completeness law: no agent is dropped or
/// duplicated by the rebucket phase.
pub proof fn lemma_rebucket_unique(i: Insect, w: int, h: int, cs_m: int)
    requires
        0 < cs_m,
        0 <= i.x < w * cs_m,
        0 <= i.y < h * cs_m,
    ensures
        in_cell_spec(i, i.x as int / cs_m, i.y as int / cs_m, cs_m),
        0 <= i.x as int / cs_m < w,
        0 <= i.y as int / cs_m < h,
        forall|cx: int, cy: int| in_cell_spec(i, cx, cy, cs_m)
            ==> cx == i.x as int / cs_m && cy == i.y as int / cs_m,
{
    let qx = i.x as int / cs_m;
    let qy = i.y as int / cs_m;
    vstd::arithmetic::div_mod::lemma_fundamental_div_mod(i.x as int, cs_m);
    vstd::arithmetic::div_mod::lemma_mod_division_less_than_divisor(i.x as int, cs_m);
    vstd::arithmetic::div_mod::lemma_fundamental_div_mod(i.y as int, cs_m);
    vstd::arithmetic::div_mod::lemma_mod_division_less_than_divisor(i.y as int, cs_m);
    vstd::arithmetic::div_mod::lemma_div_pos_is_pos(i.x as int, cs_m);
    vstd::arithmetic::div_mod::lemma_div_pos_is_pos(i.y as int, cs_m);
    assert(qx * cs_m <= i.x < (qx + 1) * cs_m) by (nonlinear_arith)
        requires
            i.x as int == cs_m * qx + i.x as int % cs_m,
            0 <= i.x as int % cs_m < cs_m,
    ;
    assert(qy * cs_m <= i.y < (qy + 1) * cs_m) by (nonlinear_arith)
        requires
            i.y as int == cs_m * qy + i.y as int % cs_m,
            0 <= i.y as int % cs_m < cs_m,
    ;
    assert(qx < w) by (nonlinear_arith)
        requires
            qx * cs_m <= i.x,
            (i.x as int) < w * cs_m,
            0 < cs_m,
    ;
    assert(qy < h) by (nonlinear_arith)
        requires
            qy * cs_m <= i.y,
            (i.y as int) < h * cs_m,
            0 < cs_m,
    ;
    assert forall|cx: int, cy: int| in_cell_spec(i, cx, cy, cs_m)
        implies cx == qx && cy == qy by {
        assert(cx == qx) by (nonlinear_arith)
            requires
                cx * cs_m <= i.x < (cx + 1) * cs_m,
                qx * cs_m <= i.x < (qx + 1) * cs_m,
                0 < cs_m,
        ;
        assert(cy == qy) by (nonlinear_arith)
            requires
                cy * cs_m <= i.y < (cy + 1) * cs_m,
                qy * cs_m <= i.y < (qy + 1) * cs_m,
                0 < cs_m,
        ;
    }
}

impl Grid {
    /// The rebucket phase: every agent is drained into one flat working
    /// set in cell order, and every cell then takes exactly the agents
    /// whose position lies in its half-open bounds. Landmarks, cell
    /// coordinates and dimensions are untouched.
    pub fn settle_insects(self) -> (r: Grid)
        requires
            self.wf(),
        ensures
            r.wf(),
            r.width == self.width,
            r.height == self.height,
            r.cell_size == self.cell_size,
            r.grid@.len() == self.grid@.len(),
            forall|c: int| 0 <= c < r.grid@.len() ==> {
                &&& (#[trigger] r.grid@[c]).landmarks@ == self.grid@[c].landmarks@
                &&& r.grid@[c].x == self.grid@[c].x
                &&& r.grid@[c].y == self.grid@[c].y
            },
            forall|c: int| 0 <= c < r.grid@.len()
                ==> (#[trigger] r.grid@[c]).insects@ == bucket_of(
                    concat_seqs(insect_lists(self.grid@)),
                    self.grid@[c].x as int,
                    self.grid@[c].y as int,
                    self.cell_size as int * 1000,
                ),
    {
        proof {
            lemma_grid_bounds(self);
        }
        let ghost ex = self.ext_x();
        let ghost ey = self.ext_y();
        let flat = self.get_insects();
        proof {
            assert forall|j: int, t: int|
                0 <= j < insect_lists(self.grid@).len()
                    && 0 <= t < insect_lists(self.grid@)[j].len()
                implies (#[trigger] insect_lists(self.grid@)[j][t]).wf(ex, ey) by {
                assert(self.grid@[j].wf(
                    self.width as int, self.height as int, self.cell_size as int, j));
            }
            lemma_concat_insects_wf(insect_lists(self.grid@), ex, ey);
        }
        let cs_m: i64 = self.cell_size as i64 * 1000;
        let mut cells: Vec<Cell> = Vec::new();
        let mut c: usize = 0;
        while c < self.grid.len()
            invariant
                0 <= c <= self.grid@.len(),
                self.wf(),
                ex == self.ext_x(),
                ey == self.ext_y(),
                1000 <= ex <= MAX_EXTENT,
                1000 <= ey <= MAX_EXTENT,
                cs_m == self.cell_size as int * 1000,
                flat@ == concat_seqs(insect_lists(self.grid@)),
                forall|k: int| 0 <= k < flat@.len() ==> (#[trigger] flat@[k]).wf(ex, ey),
                cells@.len() == c,
                forall|d: int| 0 <= d < c ==> {
                    &&& (#[trigger] cells@[d]).landmarks@ == self.grid@[d].landmarks@
                    &&& cells@[d].x == self.grid@[d].x
                    &&& cells@[d].y == self.grid@[d].y
                    &&& cells@[d].insects@ == bucket_of(
                        flat@, self.grid@[d].x as int, self.grid@[d].y as int,
                        self.cell_size as int * 1000)
                },
                forall|d: int| 0 <= d < c ==> (#[trigger] cells@[d]).wf(
                    self.width as int, self.height as int, self.cell_size as int, d),
            decreases self.grid@.len() - c,
        {
            let cell = &self.grid[c];
            let ghost cxi = cell.x as int;
            let ghost cyi = cell.y as int;
            let ghost pred = |i: Insect| in_cell_spec(i, cxi, cyi, cs_m as int);
            proof {
                assert(self.grid@[c as int].wf(
                    self.width as int, self.height as int, self.cell_size as int, c as int));
                assert(0 <= cxi < self.width as int && 0 <= cyi < self.height as int) by {
                    vstd::arithmetic::div_mod::lemma_mod_division_less_than_divisor(
                        c as int, self.width as int);
                    vstd::arithmetic::div_mod::lemma_div_pos_is_pos(c as int, self.width as int);
                    vstd::arithmetic::mul::lemma_mul_is_commutative(
                        self.width as int, self.height as int);
                    vstd::arithmetic::div_mod::lemma_multiply_divide_lt(
                        c as int, self.width as int, self.height as int);
                };
                assert(0 <= cxi * (cs_m as int) && (cxi + 1) * (cs_m as int) <= ex)
                    by (nonlinear_arith)
                    requires
                        0 <= cxi,
                        cxi + 1 <= self.width as int,
                        0 < cs_m as int,
                        ex == self.width as int * self.cell_size as int * 1000,
                        cs_m as int == self.cell_size as int * 1000,
                ;
                assert(0 <= cyi * (cs_m as int) && (cyi + 1) * (cs_m as int) <= ey)
                    by (nonlinear_arith)
                    requires
                        0 <= cyi,
                        cyi + 1 <= self.height as int,
                        0 < cs_m as int,
                        ey == self.height as int * self.cell_size as int * 1000,
                        cs_m as int == self.cell_size as int * 1000,
                ;
                assert((cxi + 1) * (cs_m as int) == cxi * (cs_m as int) + cs_m as int)
                    by (nonlinear_arith);
                assert((cyi + 1) * (cs_m as int) == cyi * (cs_m as int) + cs_m as int)
                    by (nonlinear_arith);
            }
            let lo_x = cell.x as i64 * cs_m;
            let lo_y = cell.y as i64 * cs_m;
            let hi_x = lo_x + cs_m;
            let hi_y = lo_y + cs_m;
            let mut kept: Vec<Insect> = Vec::new();
            let mut t: usize = 0;
            while t < flat.len()
                invariant
                    0 <= t <= flat@.len(),
                    forall|k: int| 0 <= k < flat@.len() ==> (#[trigger] flat@[k]).wf(ex, ey),
                    pred == (|i: Insect| in_cell_spec(i, cxi, cyi, cs_m as int)),
                    lo_x == cxi * (cs_m as int),
                    lo_y == cyi * (cs_m as int),
                    hi_x == (cxi + 1) * (cs_m as int),
                    hi_y == (cyi + 1) * (cs_m as int),
                    kept@ == flat@.take(t as int).filter(pred),
                decreases flat@.len() - t,
            {
                let ins = flat[t];
                proof {
                    reveal(Seq::filter);
                    assert(flat@.take(t as int + 1).drop_last() =~= flat@.take(t as int));
                    assert(flat@.take(t as int + 1).last() == flat@[t as int]);
                }
                if lo_x <= ins.x && ins.x < hi_x && lo_y <= ins.y && ins.y < hi_y {
                    kept.push(ins);
                    proof {
                        assert(pred(flat@[t as int]));
                    }
                } else {
                    proof {
                        assert(!pred(flat@[t as int]));
                    }
                }
                t = t + 1;
            }
            proof {
                assert(flat@.take(flat@.len() as int) =~= flat@);
                assert(kept@ == bucket_of(flat@, cxi, cyi, cs_m as int));
                lemma_filter_insects_wf(flat@, pred, ex, ey);
            }
            let landmarks = clone_landmarks(&cell.landmarks);
            cells.push(Cell { insects: kept, landmarks, x: cell.x, y: cell.y });
            proof {
                assert(cells@[c as int].wf(
                    self.width as int, self.height as int, self.cell_size as int, c as int)) by {
                    assert(self.grid@[c as int].wf(
                        self.width as int, self.height as int, self.cell_size as int, c as int));
                }
            }
            c = c + 1;
        }
        Grid { grid: cells, width: self.width, height: self.height, cell_size: self.cell_size }
    }
}

/// Whether cell `i` is one of the first `k` neighborhood slots of the cell
/// at `(cx, cy)`.
pub open spec fn is_neighbor_upto(cx: int, cy: int, w: int, h: int, i: int, k: int) -> bool {
    exists|k2: int| 0 <= k2 < k && neighbor_slot(cx, cy, w, h, k2) == Some(i)
}

/// The agents of the first `k` neighborhood slots of the cell at
/// `(cx, cy)`, concatenated in slot order.
pub open spec fn gathered_upto(
    ls: Seq<Seq<Insect>>,
    cx: int,
    cy: int,
    w: int,
    h: int,
    k: int,
) -> Seq<Insect>
    decreases k,
{
    if k <= 0 {
        Seq::empty()
    } else {
        let pre = gathered_upto(ls, cx, cy, w, h, k - 1);
        match neighbor_slot(cx, cy, w, h, k - 1) {
            Some(idx) => pre + ls[idx],
            None => pre,
        }
    }
}

/// The cell lists with the first `k` neighborhood slots of `(cx, cy)`
/// drained.
pub open spec fn cleared_upto(
    ls: Seq<Seq<Insect>>,
    cx: int,
    cy: int,
    w: int,
    h: int,
    k: int,
) -> Seq<Seq<Insect>> {
    Seq::new(ls.len(), |i: int| if is_neighbor_upto(cx, cy, w, h, i, k) {
        Seq::<Insect>::empty()
    } else {
        ls[i]
    })
}

/// One cell's relay step on the whole grid: the agents of its 3-by-3
/// neighborhood are gathered in slot order, the relay pass runs over the
/// gathered set, and the result is written back to the originating cell,
/// leaving the drained neighbors empty until the rebucket phase.
pub open spec fn scream_cell_spec(
    ls: Seq<Seq<Insect>>,
    c: int,
    w: int,
    h: int,
    cs: int,
) -> Seq<Seq<Insect>> {
    let cx = c % w;
    let cy = c / w;
    let g = gathered_upto(ls, cx, cy, w, h, 9);
    cleared_upto(ls, cx, cy, w, h, 9).update(c, relay_pass_spec(g, cs, cs * 1000))
}

/// The whole relay phase: every cell's relay step, in cell order.
pub open spec fn scream_all_spec(
    ls0: Seq<Seq<Insect>>,
    w: int,
    h: int,
    cs: int,
    c: int,
) -> Seq<Seq<Insect>>
    decreases c,
{
    if c <= 0 {
        ls0
    } else {
        scream_cell_spec(scream_all_spec(ls0, w, h, cs, c - 1), c - 1, w, h, cs)
    }
}

/// All agents in the lists carry the same two progress-counter values.
pub open spec fn uniform_counters(ls: Seq<Seq<Insect>>, base: int, food: int) -> bool {
    forall|c: int, i: int| 0 <= c < ls.len() && 0 <= i < ls[c].len() ==> {
        &&& (#[trigger] ls[c][i]).steps_from_base == base
        &&& ls[c][i].steps_from_food == food
    }
}

proof fn lemma_gathered_uniform(
    ls: Seq<Seq<Insect>>,
    cx: int,
    cy: int,
    w: int,
    h: int,
    k: int,
    base: int,
    food: int,
)
    requires
        uniform_counters(ls, base, food),
        ls.len() == w * h,
        0 <= cx < w,
        0 <= cy < h,
        0 <= k <= 9,
    ensures
        forall|t: int| 0 <= t < gathered_upto(ls, cx, cy, w, h, k).len() ==> {
            &&& (#[trigger] gathered_upto(ls, cx, cy, w, h, k)[t]).steps_from_base == base
            &&& gathered_upto(ls, cx, cy, w, h, k)[t].steps_from_food == food
        },
    decreases k,
{
    if k > 0 {
        lemma_gathered_uniform(ls, cx, cy, w, h, k - 1, base, food);
        lemma_neighbor_slot_in_range(cx, cy, w, h, k - 1);
        let pre = gathered_upto(ls, cx, cy, w, h, k - 1);
        let g = gathered_upto(ls, cx, cy, w, h, k);
        match neighbor_slot(cx, cy, w, h, k - 1) {
            Some(idx) => {
                assert forall|t: int| 0 <= t < g.len() implies {
                    &&& (#[trigger] g[t]).steps_from_base == base
                    &&& g[t].steps_from_food == food
                } by {
                    if t < pre.len() {
                        assert(g[t] == pre[t]);
                    } else {
                        assert(g[t] == ls[idx][t - pre.len()]);
                    }
                }
            },
            None => {},
        }
    }
}

/// One cell's relay step keeps a uniform-counter population uniform: when
/// every agent carries the same two counter values, no relay rule can
/// fire, and the step only moves agents between cells.
pub proof fn lemma_scream_cell_uniform(
    ls: Seq<Seq<Insect>>,
    c: int,
    w: int,
    h: int,
    cs: int,
    base: int,
    food: int,
)
    requires
        uniform_counters(ls, base, food),
        ls.len() == w * h,
        0 <= c < w * h,
        1 <= w,
        1 <= h,
        1 <= cs,
    ensures
        scream_cell_spec(ls, c, w, h, cs).len() == ls.len(),
        uniform_counters(scream_cell_spec(ls, c, w, h, cs), base, food),
{
    let cx = c % w;
    let cy = c / w;
    vstd::arithmetic::div_mod::lemma_mod_division_less_than_divisor(c, w);
    vstd::arithmetic::div_mod::lemma_div_pos_is_pos(c, w);
    vstd::arithmetic::mul::lemma_mul_is_commutative(w, h);
    vstd::arithmetic::div_mod::lemma_multiply_divide_lt(c, w, h);
    lemma_gathered_uniform(ls, cx, cy, w, h, 9, base, food);
    let g = gathered_upto(ls, cx, cy, w, h, 9);
    crate::relay::lemma_relay_uniform(g, cs, cs * 1000, base, food);
    let out = scream_cell_spec(ls, c, w, h, cs);
    assert forall|c2: int, i: int| 0 <= c2 < out.len() && 0 <= i < out[c2].len() implies {
        &&& (#[trigger] out[c2][i]).steps_from_base == base
        &&& out[c2][i].steps_from_food == food
    } by {
        if c2 == c {
            assert(out[c2] == g);
        } else {
            assert(out[c2] == cleared_upto(ls, cx, cy, w, h, 9)[c2]);
        }
    }
}

/// The whole relay phase keeps a uniform-counter population uniform. With
/// the collision phase a no-op on a landmark-free grid and the movement
/// phase raising every counter by one, counters on such a grid rise in
/// lockstep, tick after tick, and are never reset.
pub proof fn lemma_scream_all_uniform(
    ls0: Seq<Seq<Insect>>,
    w: int,
    h: int,
    cs: int,
    c: int,
    base: int,
    food: int,
)
    requires
        uniform_counters(ls0, base, food),
        ls0.len() == w * h,
        0 <= c <= w * h,
        1 <= w,
        1 <= h,
        1 <= cs,
    ensures
        scream_all_spec(ls0, w, h, cs, c).len() == ls0.len(),
        uniform_counters(scream_all_spec(ls0, w, h, cs, c), base, food),
    decreases c,
{
    if c > 0 {
        lemma_scream_all_uniform(ls0, w, h, cs, c - 1, base, food);
        lemma_scream_cell_uniform(
            scream_all_spec(ls0, w, h, cs, c - 1), c - 1, w, h, cs, base, food);
    }
}

impl Grid {
    /// The relay ("screaming") phase: for every cell in order, the agents
    /// of its 3-by-3 neighborhood are gathered into one working set, every
    /// ordered pair within hearing radius (one cell size) exchanges
    /// progress information, and the whole working set is written back to
    /// the originating cell. Landmarks, cell coordinates and dimensions
    /// are untouched.
    pub fn screaming(self) -> (r: Grid)
        requires
            self.wf(),
        ensures
            r.wf(),
            r.width == self.width,
            r.height == self.height,
            r.cell_size == self.cell_size,
            r.grid@.len() == self.grid@.len(),
            forall|c: int| 0 <= c < r.grid@.len() ==> {
                &&& (#[trigger] r.grid@[c]).landmarks@ == self.grid@[c].landmarks@
                &&& r.grid@[c].x == self.grid@[c].x
                &&& r.grid@[c].y == self.grid@[c].y
            },
            insect_lists(r.grid@) == scream_all_spec(
                insect_lists(self.grid@),
                self.width as int,
                self.height as int,
                self.cell_size as int,
                self.n_cells(),
            ),
    {
        proof {
            lemma_grid_bounds(self);
        }
        let ext_x = self.ext_x_milli();
        let ext_y = self.ext_y_milli();
        let width = self.width;
        let height = self.height;
        let cell_size = self.cell_size;
        let ghost ls0 = insect_lists(self.grid@);
        let ghost wi = width as int;
        let ghost hi = height as int;
        let ghost csi = cell_size as int;
        proof {
            assert(csi <= wi * csi) by (nonlinear_arith)
                requires 1 <= wi, 0 <= csi,
            ;
        }
        let mut grid = self.grid;
        let n = grid.len();
        let mut c: usize = 0;
        while c < n
            invariant
                0 <= c <= n,
                n == ls0.len() == self.grid@.len(),
                grid@.len() == n,
                wi == width as int == self.width as int,
                hi == height as int == self.height as int,
                csi == cell_size as int == self.cell_size as int,
                1 <= width,
                1 <= height,
                1 <= cell_size,
                csi * 1000 <= MAX_EXTENT,
                wi * csi <= 1_000_000,
                hi * csi <= 1_000_000,
                wi * hi <= 1_000_000,
                n == wi * hi,
                ext_x == self.ext_x(),
                ext_y == self.ext_y(),
                1000 <= ext_x <= MAX_EXTENT,
                1000 <= ext_y <= MAX_EXTENT,
                ls0 == insect_lists(self.grid@),
                forall|d: int| 0 <= d < n ==> {
                    &&& (#[trigger] grid@[d]).landmarks@ == self.grid@[d].landmarks@
                    &&& grid@[d].x == self.grid@[d].x
                    &&& grid@[d].y == self.grid@[d].y
                },
                forall|d: int| 0 <= d < n ==> (#[trigger] grid@[d]).wf(wi, hi, csi, d),
                insect_lists(grid@) == scream_all_spec(ls0, wi, hi, csi, c as int),
            decreases n - c,
        {
            let ghost cur = insect_lists(grid@);
            let cx = grid[c].x;
            let cy = grid[c].y;
            let ghost cxi = cx as int;
            let ghost cyi = cy as int;
            proof {
                assert(grid@[c as int].wf(wi, hi, csi, c as int));
                vstd::arithmetic::div_mod::lemma_mod_division_less_than_divisor(c as int, wi);
                vstd::arithmetic::div_mod::lemma_div_pos_is_pos(c as int, wi);
                vstd::arithmetic::mul::lemma_mul_is_commutative(wi, hi);
                vstd::arithmetic::div_mod::lemma_multiply_divide_lt(c as int, wi, hi);
                assert(0 <= cxi < wi && 0 <= cyi < hi);
            }
            // Gather the neighborhood's agents in slot order.
            let mut gathered: Vec<Insect> = Vec::new();
            let mut k: usize = 0;
            while k < 9
                invariant
                    0 <= k <= 9,
                    n == cur.len(),
                    grid@.len() == n,
                    wi == width as int,
                    hi == height as int,
                    csi == cell_size as int,
                    wi * hi <= 1_000_000,
                    n == wi * hi,
                    0 <= cxi < wi,
                    0 <= cyi < hi,
                    cxi == cx as int,
                    cyi == cy as int,
                    cur == insect_lists(grid@),
                    forall|d: int| 0 <= d < n ==> (#[trigger] grid@[d]).wf(wi, hi, csi, d),
                    ext_x == wi * csi * 1000,
                    ext_y == hi * csi * 1000,
                    gathered@ == gathered_upto(cur, cxi, cyi, wi, hi, k as int),
                    forall|t: int| 0 <= t < gathered@.len()
                        ==> (#[trigger] gathered@[t]).wf(ext_x as int, ext_y as int),
                decreases 9 - k,
            {
                proof {
                    lemma_neighbor_slot_in_range(cxi, cyi, wi, hi, k as int);
                }
                match neighbor_of(cx, cy, width, height, k) {
                    Some(idx) => {
                        let ghost base = gathered@;
                        let mut t: usize = 0;
                        while t < grid[idx].insects.len()
                            invariant
                                0 <= t <= grid@[idx as int].insects@.len(),
                                0 <= idx < n,
                                grid@.len() == n,
                                forall|d: int| 0 <= d < n
                                    ==> (#[trigger] grid@[d]).wf(wi, hi, csi, d),
                                ext_x == wi * csi * 1000,
                                ext_y == hi * csi * 1000,
                                gathered@ == base + grid@[idx as int].insects@.take(t as int),
                                forall|t2: int| 0 <= t2 < base.len()
                                    ==> (#[trigger] base[t2]).wf(ext_x as int, ext_y as int),
                            decreases grid@[idx as int].insects@.len() - t,
                        {
                            let ins = grid[idx].insects[t];
                            gathered.push(ins);
                            proof {
                                assert(grid@[idx as int].wf(wi, hi, csi, idx as int));
                                assert(grid@[idx as int].insects@.take(t as int + 1)
                                    =~= grid@[idx as int].insects@.take(t as int).push(
                                        grid@[idx as int].insects@[t as int]));
                                assert(gathered@ =~= base
                                    + grid@[idx as int].insects@.take(t as int + 1));
                            }
                            t = t + 1;
                        }
                        proof {
                            assert(grid@[idx as int].insects@.take(
                                grid@[idx as int].insects@.len() as int)
                                =~= grid@[idx as int].insects@);
                            assert(cur[idx as int] == grid@[idx as int].insects@);
                            assert(gathered@ =~= gathered_upto(cur, cxi, cyi, wi, hi,
                                k as int + 1));
                            assert forall|t2: int| 0 <= t2 < gathered@.len()
                                implies (#[trigger] gathered@[t2]).wf(
                                    ext_x as int, ext_y as int) by {
                                if t2 >= base.len() {
                                    assert(gathered@[t2]
                                        == grid@[idx as int].insects@[t2 - base.len()]);
                                    assert(grid@[idx as int].wf(wi, hi, csi, idx as int));
                                }
                            }
                        }
                    },
                    None => {
                        proof {
                            assert(gathered@ =~= gathered_upto(cur, cxi, cyi, wi, hi,
                                k as int + 1));
                        }
                    },
                }
                k = k + 1;
            }
            // Relay within the gathered working set.
            let relayed = relay_pass(gathered, cell_size, ext_x, ext_y);
            // Drain every neighborhood slot.
            let mut k2: usize = 0;
            while k2 < 9
                invariant
                    0 <= k2 <= 9,
                    n == cur.len(),
                    grid@.len() == n,
                    n == self.grid@.len(),
                    wi == width as int,
                    hi == height as int,
                    csi == cell_size as int,
                    wi * hi <= 1_000_000,
                    n == wi * hi,
                    0 <= cxi < wi,
                    0 <= cyi < hi,
                    cxi == cx as int,
                    cyi == cy as int,
                    forall|d: int| 0 <= d < n ==> {
                        &&& (#[trigger] grid@[d]).landmarks@ == self.grid@[d].landmarks@
                        &&& grid@[d].x == self.grid@[d].x
                        &&& grid@[d].y == self.grid@[d].y
                    },
                    forall|d: int| 0 <= d < n ==> (#[trigger] grid@[d]).wf(wi, hi, csi, d),
                    insect_lists(grid@) == cleared_upto(cur, cxi, cyi, wi, hi, k2 as int),
                decreases 9 - k2,
            {
                proof {
                    lemma_neighbor_slot_in_range(cxi, cyi, wi, hi, k2 as int);
                }
                let ghost before = insect_lists(grid@);
                match neighbor_of(cx, cy, width, height, k2) {
                    Some(idx) => {
                        let lmks = clone_landmarks(&grid[idx].landmarks);
                        let gx = grid[idx].x;
                        let gy = grid[idx].y;
                        let empty_cell = Cell { insects: Vec::new(), landmarks: lmks, x: gx, y: gy };
                        grid[idx] = empty_cell;
                        proof {
                            assert forall|i: int| 0 <= i < n
                                implies #[trigger] insect_lists(grid@)[i]
                                    == cleared_upto(cur, cxi, cyi, wi, hi, k2 as int + 1)[i] by {
                                if i == idx as int {
                                    assert(is_neighbor_upto(cxi, cyi, wi, hi, i, k2 as int + 1));
                                    assert(insect_lists(grid@)[i] =~= Seq::<Insect>::empty());
                                } else {
                                    assert(insect_lists(grid@)[i] == before[i]);
                                    if is_neighbor_upto(cxi, cyi, wi, hi, i, k2 as int) {
                                        assert(is_neighbor_upto(cxi, cyi, wi, hi, i,
                                            k2 as int + 1));
                                    } else if is_neighbor_upto(cxi, cyi, wi, hi, i,
                                        k2 as int + 1) {
                                        let k3 = choose|k3: int| 0 <= k3 < k2 as int + 1
                                            && neighbor_slot(cxi, cyi, wi, hi, k3) == Some(i);
                                        assert(k3 == k2 as int);
                                        assert(false);
                                    }
                                }
                            }
                            assert(insect_lists(grid@)
                                =~= cleared_upto(cur, cxi, cyi, wi, hi, k2 as int + 1));
                        }
                    },
                    None => {
                        proof {
                            assert forall|i: int| 0 <= i < n
                                implies #[trigger] insect_lists(grid@)[i]
                                    == cleared_upto(cur, cxi, cyi, wi, hi, k2 as int + 1)[i] by {
                                if !is_neighbor_upto(cxi, cyi, wi, hi, i, k2 as int)
                                    && is_neighbor_upto(cxi, cyi, wi, hi, i, k2 as int + 1) {
                                    let k3 = choose|k3: int| 0 <= k3 < k2 as int + 1
                                        && neighbor_slot(cxi, cyi, wi, hi, k3) == Some(i);
                                    assert(k3 == k2 as int);
                                    assert(false);
                                }
                            }
                            assert(insect_lists(grid@)
                                =~= cleared_upto(cur, cxi, cyi, wi, hi, k2 as int + 1));
                        }
                    },
                }
                k2 = k2 + 1;
            }
            // Write the relayed working set back to the originating cell.
            let lmks = clone_landmarks(&grid[c].landmarks);
            let gx = grid[c].x;
            let gy = grid[c].y;
            let center = Cell { insects: relayed, landmarks: lmks, x: gx, y: gy };
            let ghost gprev = grid@;
            grid[c] = center;
            proof {
                assert(gprev[c as int].wf(wi, hi, csi, c as int));
                assert(cxi == c as int % wi && cyi == c as int / wi);
                assert(gx as int == cxi && gy as int == cyi);
                assert(insect_lists(grid@)
                    =~= scream_cell_spec(cur, c as int, wi, hi, csi));
                assert(insect_lists(grid@)
                    == scream_all_spec(ls0, wi, hi, csi, c as int + 1));
                assert forall|d: int| 0 <= d < n
                    implies (#[trigger] grid@[d]).wf(wi, hi, csi, d) by {
                    if d != c as int {
                        assert(grid@[d] == gprev[d]);
                        assert(gprev[d].wf(wi, hi, csi, d));
                    } else {
                        assert(forall|t: int| 0 <= t < relayed@.len()
                            ==> (#[trigger] relayed@[t]).wf(ext_x as int, ext_y as int));
                    }
                }
            }
            c = c + 1;
        }
        let r = Grid { grid, width, height, cell_size };
        proof {
            assert(insect_lists(r.grid@)
                == scream_all_spec(ls0, wi, hi, csi, self.n_cells()));
        }
        r
    }
}

/// How many agents every cell receives at construction: the requested
/// total divided by the cell count, rounded up.
pub open spec fn per_cell_spec(num_insects: int, ncells: int) -> int {
    (num_insects + ncells - 1) / ncells
}

/// The shape every freshly built grid has: one cell per coordinate, all
/// well formed, each holding the same number of agents, every agent with
/// zeroed counters searching for food.
pub open spec fn built_cells_ok(cells: Seq<Cell>, w: int, h: int, cs: int, per: int) -> bool {
    &&& cells.len() == w * h
    &&& forall|c: int| 0 <= c < cells.len() ==> (#[trigger] cells[c]).wf(w, h, cs, c)
    &&& forall|c: int| 0 <= c < cells.len() ==> (#[trigger] cells[c]).insects@.len() == per
    &&& forall|c: int, i: int| 0 <= c < cells.len() && 0 <= i < cells[c].insects@.len() ==> {
        &&& (#[trigger] cells[c].insects@[i]).steps_from_food == 0
        &&& cells[c].insects@[i].steps_from_base == 0
        &&& cells[c].insects@[i].state == Foraging::SearchingFood
        &&& in_cell_spec(cells[c].insects@[i], cells[c].x as int, cells[c].y as int, cs * 1000)
    }
}

/// A total landmark count is zero when every list is empty.
proof fn lemma_count_kind_empty(ls: Seq<Seq<Landmark>>, kind: LandmarkKind)
    requires
        forall|i: int| 0 <= i < ls.len() ==> (#[trigger] ls[i]).len() == 0,
    ensures
        count_kind(ls, kind) == 0,
    decreases ls.len(),
{
    if ls.len() > 0 {
        assert(forall|i: int| 0 <= i < ls.drop_last().len()
            ==> #[trigger] ls.drop_last()[i] == ls[i]);
        lemma_count_kind_empty(ls.drop_last(), kind);
        assert(ls.last() == ls[ls.len() - 1]);
    }
}

/// Pushing one landmark onto one list raises the total count of its kind
/// by one and leaves the other kind's count alone.
proof fn lemma_count_kind_update_push(
    ls: Seq<Seq<Landmark>>,
    i: int,
    lm: Landmark,
    kind: LandmarkKind,
)
    requires
        0 <= i < ls.len(),
    ensures
        count_kind(ls.update(i, ls[i].push(lm)), kind)
            == count_kind(ls, kind) + if lm.kind == kind { 1int } else { 0 },
    decreases ls.len(),
{
    reveal(Seq::filter);
    let upd = ls.update(i, ls[i].push(lm));
    if i == ls.len() - 1 {
        assert(upd.drop_last() =~= ls.drop_last());
        assert(upd.last() == ls[i].push(lm));
        assert(ls[i].push(lm).drop_last() =~= ls[i]);
        assert(ls.last() == ls[i]);
    } else {
        lemma_count_kind_update_push(ls.drop_last(), i, lm, kind);
        assert(upd.drop_last() =~= ls.drop_last().update(i, ls.drop_last()[i].push(lm)));
        assert(ls.drop_last()[i] == ls[i]);
        assert(upd.last() == ls.last());
    }
}

impl Grid {
    /// Builds a grid of `size[0]` by `size[1]` cells of `cell_size` world
    /// units. Every cell receives the requested agent total divided by the
    /// cell count, rounded up, at uniformly random positions inside its
    /// bounds with uniformly random headings, zeroed counters, searching
    /// for food. `num_food` Food and `num_base` Base landmarks of radius
    /// `base_size` land in uniformly random cells (with replacement), each
    /// at a uniformly random position inset from its cell's edges by a
    /// quarter of the cell size. Construction is rejected when a dimension
    /// is zero, or when the placement margin is at least half the cell
    /// size, which with the fixed quarter-cell margin means a zero cell
    /// size.
    pub fn new(
        cell_size: u32,
        size: [u32; 2],
        num_food: u16,
        num_base: u16,
        base_size: u16,
        num_insects: u32,
        rng: &mut rand::rngs::StdRng,
    ) -> (r: Result<Grid, GridError>)
        requires
            size[0] as int * cell_size as int <= 1_000_000,
            size[1] as int * cell_size as int <= 1_000_000,
            size[0] as int * size[1] as int <= 1_000_000,
            (num_food > 0 || num_base > 0) && cell_size > 0 && size[0] > 0 && size[1] > 0
                ==> base_size as int * 1000 + 5000
                    <= size[0] as int * cell_size as int * 1000
                    && base_size as int * 1000 + 5000
                        <= size[1] as int * cell_size as int * 1000,
        ensures
            r == Result::<Grid, GridError>::Err(GridError::ZeroDimension)
                <==> (size[0] == 0 || size[1] == 0),
            r == Result::<Grid, GridError>::Err(GridError::EmptyPlacementRange)
                <==> (size[0] > 0 && size[1] > 0 && cell_size == 0),
            r is Ok <==> (size[0] > 0 && size[1] > 0 && cell_size > 0),
            r matches Ok(g) ==> {
                &&& g.wf()
                &&& g.width == size[0]
                &&& g.height == size[1]
                &&& g.cell_size == cell_size
                &&& built_cells_ok(g.grid@, size[0] as int, size[1] as int, cell_size as int,
                    per_cell_spec(num_insects as int, size[0] as int * size[1] as int))
                &&& count_kind(landmark_lists(g.grid@), LandmarkKind::Food) == num_food as int
                &&& count_kind(landmark_lists(g.grid@), LandmarkKind::Base) == num_base as int
                &&& forall|c: int, j: int|
                    0 <= c < g.grid@.len() && 0 <= j < g.grid@[c].landmarks@.len()
                        ==> (#[trigger] g.grid@[c].landmarks@[j]).radius == base_size
            },
    {
        if size[0] == 0 || size[1] == 0 {
            return Err(GridError::ZeroDimension);
        }
        if cell_size == 0 {
            return Err(GridError::EmptyPlacementRange);
        }
        let w = size[0];
        let h = size[1];
        let ghost wi = w as int;
        let ghost hi = h as int;
        let ghost csi = cell_size as int;
        let ncells: u64 = (w as u64) * (h as u64);
        let cs_m: i64 = cell_size as i64 * 1000;
        let ghost ex = wi * csi * 1000;
        let ghost ey = hi * csi * 1000;
        proof {
            assert(1 <= wi * hi && 1 <= wi * csi && 1 <= hi * csi) by (nonlinear_arith)
                requires 1 <= wi, 1 <= hi, 1 <= csi,
            ;
        }
        let per64: u64 = (num_insects as u64 + ncells - 1) / ncells;
        proof {
            vstd::arithmetic::div_mod::lemma_div_pos_is_pos(
                num_insects as int + ncells as int - 1, ncells as int);
            assert((num_insects as int + ncells as int - 1)
                < ncells as int * (num_insects as int + 1)) by (nonlinear_arith)
                requires 1 <= ncells as int,
            ;
            vstd::arithmetic::div_mod::lemma_multiply_divide_lt(
                num_insects as int + ncells as int - 1, ncells as int, num_insects as int + 1);
        }
        let per: u32 = per64 as u32;
        let ghost peri = per_cell_spec(num_insects as int, wi * hi);
        proof {
            assert(peri == per as int);
        }
        // Build the cells, each with its agents and no landmarks yet.
        let mut cells: Vec<Cell> = Vec::new();
        let mut c: usize = 0;
        let ncells_us: usize = ncells as usize;
        while c < ncells_us
            invariant
                0 <= c <= ncells_us,
                ncells_us == wi * hi,
                wi == w as int == size[0] as int,
                hi == h as int == size[1] as int,
                csi == cell_size as int,
                1 <= wi,
                1 <= hi,
                1 <= csi,
                wi * csi <= 1_000_000,
                hi * csi <= 1_000_000,
                wi * hi <= 1_000_000,
                cs_m == csi * 1000,
                ex == wi * csi * 1000,
                ey == hi * csi * 1000,
                peri == per as int,
                cells@.len() == c,
                forall|d: int| 0 <= d < c ==> (#[trigger] cells@[d]).wf(wi, hi, csi, d),
                forall|d: int| 0 <= d < c ==> (#[trigger] cells@[d]).insects@.len() == peri,
                forall|d: int| 0 <= d < c ==> (#[trigger] cells@[d]).landmarks@.len() == 0,
                forall|d: int, i: int| 0 <= d < c && 0 <= i < cells@[d].insects@.len() ==> {
                    &&& (#[trigger] cells@[d].insects@[i]).steps_from_food == 0
                    &&& cells@[d].insects@[i].steps_from_base == 0
                    &&& cells@[d].insects@[i].state == Foraging::SearchingFood
                    &&& in_cell_spec(cells@[d].insects@[i], cells@[d].x as int,
                        cells@[d].y as int, csi * 1000)
                },
            decreases ncells_us - c,
        {
            let cxu: usize = c % (w as usize);
            let cyu: usize = c / (w as usize);
            let cx = cxu as u32;
            let cy = cyu as u32;
            proof {
                vstd::arithmetic::div_mod::lemma_mod_division_less_than_divisor(c as int, wi);
                vstd::arithmetic::div_mod::lemma_div_pos_is_pos(c as int, wi);
                vstd::arithmetic::mul::lemma_mul_is_commutative(wi, hi);
                vstd::arithmetic::div_mod::lemma_multiply_divide_lt(c as int, wi, hi);
                assert(0 <= cx as int * (cs_m as int)
                    && (cx as int + 1) * (cs_m as int) <= ex) by (nonlinear_arith)
                    requires
                        0 <= cx as int,
                        cx as int + 1 <= wi,
                        0 < cs_m as int,
                        ex == wi * csi * 1000,
                        cs_m as int == csi * 1000,
                ;
                assert(0 <= cy as int * (cs_m as int)
                    && (cy as int + 1) * (cs_m as int) <= ey) by (nonlinear_arith)
                    requires
                        0 <= cy as int,
                        cy as int + 1 <= hi,
                        0 < cs_m as int,
                        ey == hi * csi * 1000,
                        cs_m as int == csi * 1000,
                ;
                assert((cx as int + 1) * (cs_m as int) == cx as int * (cs_m as int) + cs_m as int)
                    by (nonlinear_arith);
                assert((cy as int + 1) * (cs_m as int) == cy as int * (cs_m as int) + cs_m as int)
                    by (nonlinear_arith);
            }
            let lo_x = cx as i64 * cs_m;
            let lo_y = cy as i64 * cs_m;
            let mut ins: Vec<Insect> = Vec::new();
            let mut k: u32 = 0;
            while k < per
                invariant
                    0 <= k <= per,
                    ins@.len() == k,
                    0 < cs_m,
                    lo_x == cx as int * (cs_m as int),
                    lo_y == cy as int * (cs_m as int),
                    0 <= lo_x,
                    0 <= lo_y,
                    lo_x + cs_m <= ex,
                    lo_y + cs_m <= ey,
                    ex <= MAX_EXTENT as int,
                    ey <= MAX_EXTENT as int,
                    forall|i: int| 0 <= i < ins@.len() ==> (#[trigger] ins@[i]).wf(ex, ey),
                    forall|i: int| 0 <= i < ins@.len() ==> {
                        &&& (#[trigger] ins@[i]).steps_from_food == 0
                        &&& ins@[i].steps_from_base == 0
                        &&& ins@[i].state == Foraging::SearchingFood
                        &&& in_cell_spec(ins@[i], cx as int, cy as int, cs_m as int)
                    },
                    cs_m == csi * 1000,
                    (cx as int + 1) * (cs_m as int) == lo_x + cs_m,
                    (cy as int + 1) * (cs_m as int) == lo_y + cs_m,
                decreases per - k,
            {
                let x = rand_in_range(rng, lo_x, lo_x + cs_m);
                let y = rand_in_range(rng, lo_y, lo_y + cs_m);
                let a = rand_in_range(rng, 0, 3600);
                let insect = Insect::new(x, y, a, 0, 0, Foraging::SearchingFood);
                ins.push(insect);
                k = k + 1;
            }
            cells.push(Cell { insects: ins, landmarks: Vec::new(), x: cx, y: cy });
            c = c + 1;
        }
        proof {
            lemma_count_kind_empty(landmark_lists(cells@), LandmarkKind::Food);
            lemma_count_kind_empty(landmark_lists(cells@), LandmarkKind::Base);
        }
        // Scatter the landmarks: Food first, then Base, each in a
        // uniformly random cell, inset by a quarter cell from its edges.
        let margin = crate::fixed::div_nn(cs_m, 4);
        proof {
            vstd::arithmetic::div_mod::lemma_fundamental_div_mod(cs_m as int, 4);
        }
        let mut jf: u16 = 0;
        while jf < num_food
            invariant
                0 <= jf <= num_food,
                wi == w as int == size[0] as int,
                hi == h as int == size[1] as int,
                csi == cell_size as int,
                1 <= wi,
                1 <= hi,
                1 <= csi,
                wi * csi <= 1_000_000,
                hi * csi <= 1_000_000,
                wi * hi <= 1_000_000,
                cs_m == csi * 1000,
                ex == wi * csi * 1000,
                ey == hi * csi * 1000,
                0 <= margin,
                4 * margin <= cs_m,
                num_food > 0 || num_base > 0 ==> base_size as int * 1000 + 5000 <= ex
                    && base_size as int * 1000 + 5000 <= ey,
                peri == per as int,
                cells@.len() == wi * hi,
                forall|d: int| 0 <= d < cells@.len() ==> (#[trigger] cells@[d]).wf(wi, hi, csi, d),
                forall|d: int| 0 <= d < cells@.len()
                    ==> (#[trigger] cells@[d]).insects@.len() == peri,
                forall|d: int, i: int| 0 <= d < cells@.len() && 0 <= i < cells@[d].insects@.len()
                    ==> {
                    &&& (#[trigger] cells@[d].insects@[i]).steps_from_food == 0
                    &&& cells@[d].insects@[i].steps_from_base == 0
                    &&& cells@[d].insects@[i].state == Foraging::SearchingFood
                    &&& in_cell_spec(cells@[d].insects@[i], cells@[d].x as int,
                        cells@[d].y as int, csi * 1000)
                },
                forall|d: int, j: int|
                    0 <= d < cells@.len() && 0 <= j < cells@[d].landmarks@.len()
                        ==> (#[trigger] cells@[d].landmarks@[j]).radius == base_size,
                count_kind(landmark_lists(cells@), LandmarkKind::Food) == jf as int,
                count_kind(landmark_lists(cells@), LandmarkKind::Base) == 0,
            decreases num_food - jf,
        {
            scatter_landmark(&mut cells, w, h, cell_size, base_size, LandmarkKind::Food,
                margin, rng, Ghost(peri));
            jf = jf + 1;
        }
        let mut jb: u16 = 0;
        while jb < num_base
            invariant
                0 <= jb <= num_base,
                wi == w as int == size[0] as int,
                hi == h as int == size[1] as int,
                csi == cell_size as int,
                1 <= wi,
                1 <= hi,
                1 <= csi,
                wi * csi <= 1_000_000,
                hi * csi <= 1_000_000,
                wi * hi <= 1_000_000,
                cs_m == csi * 1000,
                ex == wi * csi * 1000,
                ey == hi * csi * 1000,
                0 <= margin,
                4 * margin <= cs_m,
                num_food > 0 || num_base > 0 ==> base_size as int * 1000 + 5000 <= ex
                    && base_size as int * 1000 + 5000 <= ey,
                peri == per as int,
                cells@.len() == wi * hi,
                forall|d: int| 0 <= d < cells@.len() ==> (#[trigger] cells@[d]).wf(wi, hi, csi, d),
                forall|d: int| 0 <= d < cells@.len()
                    ==> (#[trigger] cells@[d]).insects@.len() == peri,
                forall|d: int, i: int| 0 <= d < cells@.len() && 0 <= i < cells@[d].insects@.len()
                    ==> {
                    &&& (#[trigger] cells@[d].insects@[i]).steps_from_food == 0
                    &&& cells@[d].insects@[i].steps_from_base == 0
                    &&& cells@[d].insects@[i].state == Foraging::SearchingFood
                    &&& in_cell_spec(cells@[d].insects@[i], cells@[d].x as int,
                        cells@[d].y as int, csi * 1000)
                },
                forall|d: int, j: int|
                    0 <= d < cells@.len() && 0 <= j < cells@[d].landmarks@.len()
                        ==> (#[trigger] cells@[d].landmarks@[j]).radius == base_size,
                count_kind(landmark_lists(cells@), LandmarkKind::Food) == num_food as int,
                count_kind(landmark_lists(cells@), LandmarkKind::Base) == jb as int,
            decreases num_base - jb,
        {
            scatter_landmark(&mut cells, w, h, cell_size, base_size, LandmarkKind::Base,
                margin, rng, Ghost(peri));
            jb = jb + 1;
        }
        let g = Grid { grid: cells, width: w, height: h, cell_size };
        Ok(g)
    }
}

/// Places one landmark of the given kind in a uniformly random cell, at a
/// uniformly random position inset from that cell's edges by `margin`
/// milli-units.
fn scatter_landmark(
    cells: &mut Vec<Cell>,
    w: u32,
    h: u32,
    cell_size: u32,
    base_size: u16,
    kind: LandmarkKind,
    margin: i64,
    rng: &mut rand::rngs::StdRng,
    per: Ghost<int>,
)
    requires
        1 <= w,
        1 <= h,
        1 <= cell_size,
        w as int * cell_size as int <= 1_000_000,
        h as int * cell_size as int <= 1_000_000,
        w as int * h as int <= 1_000_000,
        0 <= margin,
        4 * margin <= cell_size as int * 1000,
        base_size as int * 1000 + 5000 <= w as int * cell_size as int * 1000,
        base_size as int * 1000 + 5000 <= h as int * cell_size as int * 1000,
        old(cells)@.len() == w as int * h as int,
        forall|d: int| 0 <= d < old(cells)@.len()
            ==> (#[trigger] old(cells)@[d]).wf(w as int, h as int, cell_size as int, d),
        forall|d: int| 0 <= d < old(cells)@.len()
            ==> (#[trigger] old(cells)@[d]).insects@.len() == per@,
        forall|d: int, i: int|
            0 <= d < old(cells)@.len() && 0 <= i < old(cells)@[d].insects@.len() ==> {
                &&& (#[trigger] old(cells)@[d].insects@[i]).steps_from_food == 0
                &&& old(cells)@[d].insects@[i].steps_from_base == 0
                &&& old(cells)@[d].insects@[i].state == Foraging::SearchingFood
                &&& in_cell_spec(old(cells)@[d].insects@[i], old(cells)@[d].x as int,
                    old(cells)@[d].y as int, cell_size as int * 1000)
            },
        forall|d: int, j: int|
            0 <= d < old(cells)@.len() && 0 <= j < old(cells)@[d].landmarks@.len()
                ==> (#[trigger] old(cells)@[d].landmarks@[j]).radius == base_size,
    ensures
        final(cells)@.len() == old(cells)@.len(),
        forall|d: int| 0 <= d < final(cells)@.len()
            ==> (#[trigger] final(cells)@[d]).wf(w as int, h as int, cell_size as int, d),
        forall|d: int| 0 <= d < final(cells)@.len()
            ==> (#[trigger] final(cells)@[d]).insects@.len() == per@,
        forall|d: int, i: int|
            0 <= d < final(cells)@.len() && 0 <= i < final(cells)@[d].insects@.len() ==> {
                &&& (#[trigger] final(cells)@[d].insects@[i]).steps_from_food == 0
                &&& final(cells)@[d].insects@[i].steps_from_base == 0
                &&& final(cells)@[d].insects@[i].state == Foraging::SearchingFood
                &&& in_cell_spec(final(cells)@[d].insects@[i], final(cells)@[d].x as int,
                    final(cells)@[d].y as int, cell_size as int * 1000)
            },
        forall|d: int, j: int|
            0 <= d < final(cells)@.len() && 0 <= j < final(cells)@[d].landmarks@.len()
                ==> (#[trigger] final(cells)@[d].landmarks@[j]).radius == base_size,
        count_kind(landmark_lists(final(cells)@), LandmarkKind::Food)
            == count_kind(landmark_lists(old(cells)@), LandmarkKind::Food)
                + if kind == LandmarkKind::Food { 1int } else { 0 },
        count_kind(landmark_lists(final(cells)@), LandmarkKind::Base)
            == count_kind(landmark_lists(old(cells)@), LandmarkKind::Base)
                + if kind == LandmarkKind::Base { 1int } else { 0 },
{
    let ghost wi = w as int;
    let ghost hi = h as int;
    let ghost csi = cell_size as int;
    let cs_m: i64 = cell_size as i64 * 1000;
    let cx = rand_in_range(rng, 0, w as i64) as u32;
    let cy = rand_in_range(rng, 0, h as i64) as u32;
    proof {
        assert(0 <= cx as int * (cs_m as int)
            && (cx as int + 1) * (cs_m as int) <= wi * csi * 1000) by (nonlinear_arith)
            requires
                0 <= cx as int,
                cx as int + 1 <= wi,
                0 < cs_m as int,
                cs_m as int == csi * 1000,
        ;
        assert(0 <= cy as int * (cs_m as int)
            && (cy as int + 1) * (cs_m as int) <= hi * csi * 1000) by (nonlinear_arith)
            requires
                0 <= cy as int,
                cy as int + 1 <= hi,
                0 < cs_m as int,
                cs_m as int == csi * 1000,
        ;
        assert((cx as int + 1) * (cs_m as int) == cx as int * (cs_m as int) + cs_m as int)
            by (nonlinear_arith);
        assert((cy as int + 1) * (cs_m as int) == cy as int * (cs_m as int) + cs_m as int)
            by (nonlinear_arith);
        assert(0 <= cx as int + wi * (cy as int) < wi * hi) by (nonlinear_arith)
            requires
                0 <= cx as int && (cx as int) < wi,
                0 <= cy as int && (cy as int) < hi,
        ;
    }
    let lo_x = cx as i64 * cs_m;
    let lo_y = cy as i64 * cs_m;
    let x = rand_in_range(rng, lo_x + margin, lo_x + cs_m - margin);
    let y = rand_in_range(rng, lo_y + margin, lo_y + cs_m - margin);
    let lm = Landmark { x, y, radius: base_size, kind };
    let idx: usize = cx as usize + (w as usize) * (cy as usize);
    let ghost prev = cells@;
    let mut lst = clone_landmarks(&cells[idx].landmarks);
    lst.push(lm);
    let insects = clone_insects(&cells[idx].insects);
    let gx = cells[idx].x;
    let gy = cells[idx].y;
    let updated = Cell { insects, landmarks: lst, x: gx, y: gy };
    cells[idx] = updated;
    proof {
        assert(landmark_lists(cells@) =~= landmark_lists(prev).update(
            idx as int, prev[idx as int].landmarks@.push(lm)));
        lemma_count_kind_update_push(landmark_lists(prev), idx as int, lm, LandmarkKind::Food);
        lemma_count_kind_update_push(landmark_lists(prev), idx as int, lm, LandmarkKind::Base);
        assert(prev[idx as int].wf(wi, hi, csi, idx as int));
        vstd::arithmetic::mul::lemma_mul_is_commutative(cy as int, wi);
        assert(idx as int == cy as int * wi + cx as int);
        vstd::arithmetic::div_mod::lemma_fundamental_div_mod_converse(
            idx as int, wi, cy as int, cx as int);
        assert forall|d: int| 0 <= d < cells@.len()
            implies (#[trigger] cells@[d]).wf(wi, hi, csi, d) by {
            assert(prev[d].wf(wi, hi, csi, d));
        }
    }
}

} // verus!
