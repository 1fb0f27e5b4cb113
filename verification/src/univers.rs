//! The sector grid: which sectors are loaded around the camera, which are
//! loaded next, and which are forgotten once the camera has moved away.

use vstd::prelude::*;

use bevy::utils::HashSet;

use crate::generation::{calculer_hachage_spatial, spatial_hash};

verus! {

/// Number of sectors (in each direction) below which the view never shrinks.
pub const MIN_VISION_RADIUS: i32 = 10;

/// Number of sectors (in each direction) above which the view never grows.
pub const MAX_VISION_RADIUS: i32 = 100;

/// Width of a sector in world units, for the scaled zoom below.
pub const SECTOR_SIZE: i32 = 80;

/// Extra sectors kept loaded beyond the view before they are forgotten.
pub const DESPAWN_MARGIN: i32 = 5;

// ---------------------------------------------------------------------------
// Grid geometry
// ---------------------------------------------------------------------------

/// The sector `(x, y)` lies in the square of half-width `reach` centred on
/// `(cx, cy)`: it is at most `reach` sectors away on each axis.
pub open spec fn within(x: int, y: int, cx: int, cy: int, reach: int) -> bool {
    &&& -reach <= x - cx <= reach
    &&& -reach <= y - cy <= reach
}

/// The square of sectors of half-width `reach` centred on `(cx, cy)`.
pub open spec fn window(cx: int, cy: int, reach: int) -> Set<(i32, i32)> {
    Set::new(|c: (i32, i32)| within(c.0 as int, c.1 as int, cx, cy, reach))
}

/// Says whether the sector `(x, y)` is at most `reach` sectors away from
/// `(cx, cy)` on each axis.
pub fn sector_within(x: i32, y: i32, cx: i32, cy: i32, reach: i32) -> (r: bool)
    ensures
        r == within(x as int, y as int, cx as int, cy as int, reach as int),
{
    let dx = x as i64 - cx as i64;
    let dy = y as i64 - cy as i64;
    let reach = reach as i64;
    -reach <= dx && dx <= reach && -reach <= dy && dy <= reach
}

/// Division by the sector size, truncated toward zero as `i32` division is.
pub open spec fn div_sector(scaled: int) -> int {
    if scaled >= 0 {
        scaled / 80
    } else {
        -((-scaled) / 80)
    }
}

/// The number of sectors seen around the camera: the scaled zoom (the
/// zoom times a thousand, as an integer) divided by the sector size, kept
/// between the two bounds.
pub open spec fn spec_vision_radius(scaled_zoom: int) -> int {
    let q = div_sector(scaled_zoom);
    if q < 10 {
        10
    } else if q > 100 {
        100
    } else {
        q
    }
}

/// Radius, in sectors, of the square of sectors loaded around the camera.
pub fn vision_radius(scaled_zoom: i32) -> (r: i32)
    ensures
        r == spec_vision_radius(scaled_zoom as int),
        MIN_VISION_RADIUS <= r <= MAX_VISION_RADIUS,
{
    let q: i32 = if scaled_zoom >= 0 {
        scaled_zoom / SECTOR_SIZE
    } else {
        -((-(scaled_zoom as i64) / 80) as i32)
    };
    if q < MIN_VISION_RADIUS {
        MIN_VISION_RADIUS
    } else if q > MAX_VISION_RADIUS {
        MAX_VISION_RADIUS
    } else {
        q
    }
}

/// Radius, in sectors, beyond which loaded sectors and their stars are
/// forgotten: the vision radius plus a margin.
pub fn despawn_radius(scaled_zoom: i32) -> (r: i32)
    ensures
        r == spec_vision_radius(scaled_zoom as int) + 5,
{
    vision_radius(scaled_zoom) + DESPAWN_MARGIN
}

// ---------------------------------------------------------------------------
// The set of loaded sectors
// ---------------------------------------------------------------------------

/// The set of sectors already generated.
///
/// It holds a `bevy::utils::HashSet<(i32, i32)>` (a `hashbrown::HashSet`
/// with the aHash hasher). That type cannot be declared to Verus directly:
/// its allocator parameter is bounded by a trait that `hashbrown` does not
/// export, so the set is kept in this opaque struct and its contents are
/// named by `loaded_cells`.
#[verifier::external_body]
pub struct LoadedSectors {
    cells: HashSet<(i32, i32)>,
}

/// The sectors that the hash set inside `sectors` holds.
pub uninterp spec fn loaded_cells(sectors: LoadedSectors) -> Set<(i32, i32)>;

impl LoadedSectors {
    /// Calls `hashbrown::HashSet::default`. Claimed: the new set holds no
    /// sector.
    #[verifier::external_body]
    fn cells_empty() -> (s: Self)
        ensures
            loaded_cells(s) == Set::<(i32, i32)>::empty(),
    {
        LoadedSectors { cells: HashSet::default() }
    }

    /// Calls `hashbrown::HashSet::contains`. Claimed: the answer is whether
    /// the set holds `(x, y)`.
    #[verifier::external_body]
    fn cells_contains(&self, x: i32, y: i32) -> (r: bool)
        ensures
            r == loaded_cells(*self).contains((x, y)),
    {
        self.cells.contains(&(x, y))
    }

    /// Calls `hashbrown::HashSet::insert`. Claimed: afterwards the set holds
    /// what it held and `(x, y)`; the answer is whether `(x, y)` was absent.
    #[verifier::external_body]
    fn cells_insert(&mut self, x: i32, y: i32) -> (added: bool)
        ensures
            loaded_cells(*final(self)) == loaded_cells(*old(self)).insert((x, y)),
            added == !loaded_cells(*old(self)).contains((x, y)),
    {
        self.cells.insert((x, y))
    }

    /// Calls `hashbrown::HashSet::len`. Claimed: the answer is the number of
    /// sectors held.
    #[verifier::external_body]
    fn cells_len(&self) -> (n: usize)
        ensures
            n == loaded_cells(*self).len(),
    {
        self.cells.len()
    }

    /// Calls `hashbrown::HashSet::retain` with `sector_within` as the
    /// predicate. Claimed: afterwards the set holds exactly the sectors it
    /// held that lie within `reach` of `(cx, cy)`.
    #[verifier::external_body]
    fn cells_retain_within(&mut self, cx: i32, cy: i32, reach: i32)
        ensures
            loaded_cells(*final(self)) == loaded_cells(*old(self)).filter(
                |c: (i32, i32)| within(c.0 as int, c.1 as int, cx as int, cy as int, reach as int),
            ),
    {
        self.cells.retain(|&(x, y)| sector_within(x, y, cx, cy, reach))
    }

    /// An empty set of loaded sectors.
    pub fn new() -> (s: Self)
        ensures
            loaded_cells(s) == Set::<(i32, i32)>::empty(),
    {
        Self::cells_empty()
    }

    /// Whether the sector `(x, y)` is loaded.
    pub fn contains(&self, x: i32, y: i32) -> (r: bool)
        ensures
            r == loaded_cells(*self).contains((x, y)),
    {
        self.cells_contains(x, y)
    }

    /// Marks the sector `(x, y)` as loaded; says whether it was not yet.
    pub fn insert(&mut self, x: i32, y: i32) -> (added: bool)
        ensures
            loaded_cells(*final(self)) == loaded_cells(*old(self)).insert((x, y)),
            added == !loaded_cells(*old(self)).contains((x, y)),
    {
        self.cells_insert(x, y)
    }

    /// The number of loaded sectors.
    pub fn len(&self) -> (n: usize)
        ensures
            n == loaded_cells(*self).len(),
    {
        self.cells_len()
    }

    /// Whether no sector is loaded.
    pub fn is_empty(&self) -> (r: bool)
        ensures
            r == (loaded_cells(*self).len() == 0),
    {
        self.cells_len() == 0
    }
}


// ---------------------------------------------------------------------------
// Loading the sectors around the camera
// ---------------------------------------------------------------------------

/// A sector loaded for the first time, with its spatial hash.
pub struct NewSector {
    pub x: i32,
    pub y: i32,
    pub hash: u32,
}

/// The grid cell of a newly loaded sector.
pub open spec fn cell_of(s: NewSector) -> (i32, i32) {
    (s.x, s.y)
}

/// `a` comes before `b` in row-major order: by column, then by row.
pub open spec fn row_major_before(a: (i32, i32), b: (i32, i32)) -> bool {
    a.0 < b.0 || (a.0 == b.0 && a.1 < b.1)
}

/// What loading the window of half-width `radius` around `(cx, cy)` hands
/// back when `old` was loaded before: every sector of the window that was
/// not loaded yet, exactly once, in row-major order, each with its hash.
pub open spec fn fresh_sectors(
    old: Set<(i32, i32)>,
    cx: int,
    cy: int,
    radius: int,
    seed: u32,
    fresh: Seq<NewSector>,
) -> bool {
    &&& forall|i: int|
        0 <= i < fresh.len() ==> {
            &&& window(cx, cy, radius).contains(#[trigger] cell_of(fresh[i]))
            &&& !old.contains(cell_of(fresh[i]))
            &&& fresh[i].hash == spatial_hash(fresh[i].x, fresh[i].y, seed)
        }
    &&& forall|c: (i32, i32)|
        #[trigger] window(cx, cy, radius).contains(c) && !old.contains(c) ==> exists|i: int|
            0 <= i < fresh.len() && cell_of(fresh[i]) == c
    &&& forall|i: int, j: int|
        0 <= i < j < fresh.len() ==> row_major_before(
            #[trigger] cell_of(fresh[i]),
            #[trigger] cell_of(fresh[j]),
        )
}

/// The sector `c` of the window has been visited once the sweep stands at
/// column `x`, row `y`.
spec fn swept(c: (i32, i32), cx: int, cy: int, radius: int, x: int, y: int) -> bool {
    &&& within(c.0 as int, c.1 as int, cx, cy, radius)
    &&& (c.0 < x || (c.0 == x && c.1 < y))
}

/// The state of the sweep at column `x`, row `y`.
spec fn sweep_state(
    old: Set<(i32, i32)>,
    cur: Set<(i32, i32)>,
    fresh: Seq<NewSector>,
    cx: int,
    cy: int,
    radius: int,
    seed: u32,
    x: int,
    y: int,
) -> bool {
    &&& forall|c: (i32, i32)|
        #[trigger] cur.contains(c) <==> (old.contains(c) || swept(c, cx, cy, radius, x, y))
    &&& forall|i: int|
        0 <= i < fresh.len() ==> {
            &&& swept(#[trigger] cell_of(fresh[i]), cx, cy, radius, x, y)
            &&& !old.contains(cell_of(fresh[i]))
            &&& fresh[i].hash == spatial_hash(fresh[i].x, fresh[i].y, seed)
        }
    &&& forall|c: (i32, i32)|
        #[trigger] swept(c, cx, cy, radius, x, y) && !old.contains(c) ==> exists|i: int|
            0 <= i < fresh.len() && cell_of(fresh[i]) == c
    &&& forall|i: int, j: int|
        0 <= i < j < fresh.len() ==> row_major_before(
            #[trigger] cell_of(fresh[i]),
            #[trigger] cell_of(fresh[j]),
        )
}

/// The sweep state only depends on which sectors have been visited.
proof fn lemma_sweep_state_same_visited(
    old: Set<(i32, i32)>,
    cur: Set<(i32, i32)>,
    fresh: Seq<NewSector>,
    cx: int,
    cy: int,
    radius: int,
    seed: u32,
    x1: int,
    y1: int,
    x2: int,
    y2: int,
)
    requires
        sweep_state(old, cur, fresh, cx, cy, radius, seed, x1, y1),
        forall|c: (i32, i32)| swept(c, cx, cy, radius, x1, y1) == swept(c, cx, cy, radius, x2, y2),
    ensures
        sweep_state(old, cur, fresh, cx, cy, radius, seed, x2, y2),
{
    assert forall|c: (i32, i32)| #[trigger] cur.contains(c) <==> (old.contains(c) || swept(c, cx, cy, radius, x2, y2)) by {
        assert(swept(c, cx, cy, radius, x1, y1) == swept(c, cx, cy, radius, x2, y2));
    }
    assert forall|i: int| 0 <= i < fresh.len() implies swept(#[trigger] cell_of(fresh[i]), cx, cy, radius, x2, y2) by {
        assert(swept(cell_of(fresh[i]), cx, cy, radius, x1, y1));
    }
    assert forall|c: (i32, i32)|
        #[trigger] swept(c, cx, cy, radius, x2, y2) && !old.contains(c) implies exists|i: int|
            0 <= i < fresh.len() && cell_of(fresh[i]) == c by {
        assert(swept(c, cx, cy, radius, x1, y1));
    }
}

/// Loads every sector of the square of half-width `radius` around the
/// sector `(cx, cy)` that is not loaded yet, and hands those sectors back
/// in the order in which they were loaded (column by column, each column
/// from bottom to top) with their spatial hash under `seed`.
pub fn load_sectors_around(
    sectors: &mut LoadedSectors,
    cx: i32,
    cy: i32,
    radius: i32,
    seed: u32,
) -> (fresh: Vec<NewSector>)
    requires
        i32::MIN <= cx - radius,
        cx + radius <= i32::MAX,
        i32::MIN <= cy - radius,
        cy + radius <= i32::MAX,
    ensures
        loaded_cells(*final(sectors)) == loaded_cells(*old(sectors)).union(
            window(cx as int, cy as int, radius as int),
        ),
        fresh_sectors(
            loaded_cells(*old(sectors)),
            cx as int,
            cy as int,
            radius as int,
            seed,
            fresh@,
        ),
{
    let ghost old_cells = loaded_cells(*sectors);
    let ghost gcx = cx as int;
    let ghost gcy = cy as int;
    let ghost gr = radius as int;
    let mut fresh: Vec<NewSector> = Vec::new();
    if radius < 0 {
        assert(loaded_cells(*sectors) =~= old_cells.union(window(gcx, gcy, gr)));
        return fresh;
    }
    let x_start: i64 = cx as i64 - radius as i64;
    let x_end: i64 = cx as i64 + radius as i64;
    let y_start: i64 = cy as i64 - radius as i64;
    let y_end: i64 = cy as i64 + radius as i64;
    let mut x: i64 = x_start;
    while x <= x_end
        invariant
            x_start == gcx - gr,
            x_end == gcx + gr,
            y_start == gcy - gr,
            y_end == gcy + gr,
            gcx == cx,
            gcy == cy,
            gr == radius,
            0 <= gr,
            i32::MIN <= x_start,
            x_end <= i32::MAX,
            i32::MIN <= y_start,
            y_end <= i32::MAX,
            x_start <= x <= x_end + 1,
            sweep_state(old_cells, loaded_cells(*sectors), fresh@, gcx, gcy, gr, seed, x as int, y_start as int),
        decreases x_end + 1 - x,
    {
        let mut y: i64 = y_start;
        while y <= y_end
            invariant
                x_start == gcx - gr,
                x_end == gcx + gr,
                y_start == gcy - gr,
                y_end == gcy + gr,
                gcx == cx,
                gcy == cy,
                gr == radius,
                0 <= gr,
                i32::MIN <= x_start,
                x_end <= i32::MAX,
                i32::MIN <= y_start,
                y_end <= i32::MAX,
                x_start <= x <= x_end,
                y_start <= y <= y_end + 1,
                sweep_state(old_cells, loaded_cells(*sectors), fresh@, gcx, gcy, gr, seed, x as int, y as int),
            decreases y_end + 1 - y,
        {
            let xi = x as i32;
            let yi = y as i32;
            let ghost c = (xi, yi);
            let ghost cur0 = loaded_cells(*sectors);
            let ghost fresh0 = fresh@;
            assert(within(xi as int, yi as int, gcx, gcy, gr));
            assert(cur0.contains(c) <==> old_cells.contains(c));
            if !sectors.contains(xi, yi) {
                sectors.insert(xi, yi);
                let hash = calculer_hachage_spatial(xi, yi, seed);
                fresh.push(NewSector { x: xi, y: yi, hash });
                proof {
                    assert(cell_of(fresh@[fresh0.len() as int]) == c);
                    assert forall|c2: (i32, i32)|
                        swept(c2, gcx, gcy, gr, x as int, y + 1) && !old_cells.contains(c2)
                        implies exists|i: int| 0 <= i < fresh@.len() && cell_of(fresh@[i]) == c2 by {
                        if c2 == c {
                            assert(cell_of(fresh@[fresh0.len() as int]) == c2);
                        } else {
                            assert(swept(c2, gcx, gcy, gr, x as int, y as int));
                            let i = choose|i: int| 0 <= i < fresh0.len() && cell_of(fresh0[i]) == c2;
                            assert(cell_of(fresh@[i]) == c2);
                        }
                    }
                    assert forall|i: int, j: int| 0 <= i < j < fresh@.len() implies row_major_before(
                        #[trigger] cell_of(fresh@[i]),
                        #[trigger] cell_of(fresh@[j]),
                    ) by {
                        if j == fresh0.len() {
                            assert(swept(cell_of(fresh0[i]), gcx, gcy, gr, x as int, y as int));
                        } else {
                            assert(cell_of(fresh0[i]) == cell_of(fresh@[i]));
                            assert(cell_of(fresh0[j]) == cell_of(fresh@[j]));
                        }
                    }
                    assert forall|i: int| 0 <= i < fresh@.len() implies {
                        &&& swept(#[trigger] cell_of(fresh@[i]), gcx, gcy, gr, x as int, y + 1)
                        &&& !old_cells.contains(cell_of(fresh@[i]))
                        &&& fresh@[i].hash == spatial_hash(fresh@[i].x, fresh@[i].y, seed)
                    } by {
                        if i < fresh0.len() {
                            assert(fresh@[i] == fresh0[i]);
                            assert(swept(cell_of(fresh0[i]), gcx, gcy, gr, x as int, y as int));
                        }
                    }
                }
            } else {
                proof {
                    assert forall|c2: (i32, i32)|
                        swept(c2, gcx, gcy, gr, x as int, y + 1) && !old_cells.contains(c2)
                        implies exists|i: int| 0 <= i < fresh@.len() && cell_of(fresh@[i]) == c2 by {
                        assert(c2 != c);
                        assert(swept(c2, gcx, gcy, gr, x as int, y as int));
                    }
                    assert forall|i: int| 0 <= i < fresh@.len() implies
                        swept(#[trigger] cell_of(fresh@[i]), gcx, gcy, gr, x as int, y + 1) by {
                        assert(swept(cell_of(fresh@[i]), gcx, gcy, gr, x as int, y as int));
                    }
                }
            }
            y = y + 1;
        }
        proof {
            assert forall|c2: (i32, i32)|
                swept(c2, gcx, gcy, gr, x as int, y as int) == swept(c2, gcx, gcy, gr, x + 1, y_start as int) by {}
            lemma_sweep_state_same_visited(old_cells, loaded_cells(*sectors), fresh@, gcx, gcy, gr, seed,
                x as int, y as int, x + 1, y_start as int);
        }
        x = x + 1;
    }
    proof {
        assert forall|c2: (i32, i32)|
            swept(c2, gcx, gcy, gr, x as int, y_start as int) == window(gcx, gcy, gr).contains(c2) by {}
        assert(loaded_cells(*sectors) =~= old_cells.union(window(gcx, gcy, gr)));
    }
    fresh
}

// ---------------------------------------------------------------------------
// Forgetting what lies far from the camera
// ---------------------------------------------------------------------------

/// A star, placed in the sector `(grille_x, grille_y)` of the grid.
pub struct Star {
    pub grille_x: i32,
    pub grille_y: i32,
}

impl Star {
    /// Whether the star lies at most `reach` sectors away from `(cx, cy)`
    /// on each axis.
    pub fn is_within(&self, cx: i32, cy: i32, reach: i32) -> (r: bool)
        ensures
            r == within(self.grille_x as int, self.grille_y as int, cx as int, cy as int, reach as int),
    {
        sector_within(self.grille_x, self.grille_y, cx, cy, reach)
    }

    /// Whether the star lies in the sector `(gx, gy)` or in one of its eight
    /// neighbours: the only stars that a pointer in that sector can reach.
    pub fn is_near_cell(&self, gx: i32, gy: i32) -> (r: bool)
        ensures
            r == within(self.grille_x as int, self.grille_y as int, gx as int, gy as int, 1),
    {
        sector_within(self.grille_x, self.grille_y, gx, gy, 1)
    }
}

/// The positions, in increasing order, of the stars that lie more than
/// `reach` sectors away from `(cx, cy)` on some axis.
pub fn distant_stars(stars: &Vec<Star>, cx: i32, cy: i32, reach: i32) -> (out: Vec<usize>)
    ensures
        forall|k: int| 0 <= k < out.len() ==> #[trigger] out[k] < stars.len(),
        forall|k: int, l: int| 0 <= k < l < out.len() ==> #[trigger] out[k] < #[trigger] out[l],
        forall|i: int|
            0 <= i < stars.len() ==> (out@.contains(i as usize) <==> !within(
                stars[i].grille_x as int,
                stars[i].grille_y as int,
                cx as int,
                cy as int,
                reach as int,
            )),
{
    let mut out: Vec<usize> = Vec::new();
    let n = stars.len();
    for i in 0..n
        invariant
            n == stars.len(),
            forall|k: int| 0 <= k < out.len() ==> #[trigger] out[k] < i,
            forall|k: int, l: int| 0 <= k < l < out.len() ==> #[trigger] out[k] < #[trigger] out[l],
            forall|m: int|
                0 <= m < i ==> (out@.contains(m as usize) <==> !within(
                    stars[m].grille_x as int,
                    stars[m].grille_y as int,
                    cx as int,
                    cy as int,
                    reach as int,
                )),
    {
        let ghost before = out@;
        if !stars[i].is_within(cx, cy, reach) {
            out.push(i);
            proof {
                assert(out@[before.len() as int] == i);
                assert forall|m: int| 0 <= m < i implies (#[trigger] out@.contains(m as usize) <==> before.contains(m as usize)) by {
                    if out@.contains(m as usize) {
                        let k = choose|k: int| 0 <= k < out@.len() && out@[k] == m as usize;
                        if k < before.len() {
                            assert(before[k] == m as usize);
                        }
                    }
                    if before.contains(m as usize) {
                        let k = choose|k: int| 0 <= k < before.len() && before[k] == m as usize;
                        assert(out@[k] == m as usize);
                    }
                }
            }
        } else {
            proof {
                if out@.contains(i) {
                    let k = choose|k: int| 0 <= k < out@.len() && out@[k] == i;
                    assert(out[k] < i);
                }
            }
        }
    }
    proof {
        assert forall|k: int| 0 <= k < out.len() implies #[trigger] out[k] < stars.len() by {
            assert(out[k] < n);
        }
    }
    out
}

/// Forgets every loaded sector that lies more than `reach` sectors away
/// from `(cx, cy)` on some axis; keeps all the others.
pub fn forget_distant_sectors(sectors: &mut LoadedSectors, cx: i32, cy: i32, reach: i32)
    ensures
        loaded_cells(*final(sectors)) == loaded_cells(*old(sectors)).filter(
            |c: (i32, i32)| within(c.0 as int, c.1 as int, cx as int, cy as int, reach as int),
        ),
{
    sectors.cells_retain_within(cx, cy, reach)
}

/// One pass of the spatial garbage collector around the sector `(cx, cy)`
/// for the scaled zoom `scaled_zoom`: forgets the loaded sectors beyond the
/// despawn radius and hands back, in increasing order, the positions of the
/// stars beyond it, which are to be removed.
pub fn collect_distant(
    sectors: &mut LoadedSectors,
    stars: &Vec<Star>,
    cx: i32,
    cy: i32,
    scaled_zoom: i32,
) -> (out: Vec<usize>)
    ensures
        loaded_cells(*final(sectors)) == loaded_cells(*old(sectors)).filter(
            |c: (i32, i32)|
                within(
                    c.0 as int,
                    c.1 as int,
                    cx as int,
                    cy as int,
                    spec_vision_radius(scaled_zoom as int) + 5,
                ),
        ),
        forall|k: int| 0 <= k < out.len() ==> #[trigger] out[k] < stars.len(),
        forall|k: int, l: int| 0 <= k < l < out.len() ==> #[trigger] out[k] < #[trigger] out[l],
        forall|i: int|
            0 <= i < stars.len() ==> (out@.contains(i as usize) <==> !within(
                stars[i].grille_x as int,
                stars[i].grille_y as int,
                cx as int,
                cy as int,
                spec_vision_radius(scaled_zoom as int) + 5,
            )),
{
    let reach = despawn_radius(scaled_zoom);
    let out = distant_stars(stars, cx, cy, reach);
    forget_distant_sectors(sectors, cx, cy, reach);
    out
}

// ---------------------------------------------------------------------------
// Laws of the sector grid
// ---------------------------------------------------------------------------

/// Loading the same window twice in a row loads nothing the second time:
/// the loaded set stays as it is and no sector is handed back.
pub proof fn lemma_reload_loads_nothing(
    old: Set<(i32, i32)>,
    cx: int,
    cy: int,
    radius: int,
    seed: u32,
    fresh: Seq<NewSector>,
)
    requires
        fresh_sectors(old.union(window(cx, cy, radius)), cx, cy, radius, seed, fresh),
    ensures
        fresh.len() == 0,
        old.union(window(cx, cy, radius)).union(window(cx, cy, radius)) == old.union(
            window(cx, cy, radius),
        ),
{
    if fresh.len() > 0 {
        assert(window(cx, cy, radius).contains(cell_of(fresh[0])));
    }
    assert(old.union(window(cx, cy, radius)).union(window(cx, cy, radius)) =~= old.union(
        window(cx, cy, radius),
    ));
}

/// The garbage collector never forgets what the camera sees: after the
/// sectors around `(cx, cy)` are loaded for a zoom and the collector runs
/// at the same place and zoom, every sector of the view is still loaded,
/// and no star of the view is among those it removes.
pub proof fn lemma_collector_keeps_view(old: Set<(i32, i32)>, cx: int, cy: int, scaled_zoom: int, c: (i32, i32))
    requires
        window(cx, cy, spec_vision_radius(scaled_zoom)).contains(c),
    ensures
        old.union(window(cx, cy, spec_vision_radius(scaled_zoom))).filter(
            |d: (i32, i32)|
                within(d.0 as int, d.1 as int, cx, cy, spec_vision_radius(scaled_zoom) + 5),
        ).contains(c),
        within(c.0 as int, c.1 as int, cx, cy, spec_vision_radius(scaled_zoom) + 5),
{
}

/// The reach of a sector is the plain square around the centre: for every
/// reach, `(x, y)` lies within `reach` of `(cx, cy)` exactly when it is at
/// most `reach` columns and at most `reach` rows away; in particular the
/// window of half-width `reach` runs from `cx - reach` to `cx + reach` and
/// from `cy - reach` to `cy + reach`, both ends included.
pub proof fn lemma_reach_is_plain_square(x: int, y: int, cx: int, cy: int, reach: int)
    ensures
        within(x, y, cx, cy, reach) <==> ({
            let ax = if x >= cx { x - cx } else { cx - x };
            let ay = if y >= cy { y - cy } else { cy - y };
            ax <= reach && ay <= reach
        }),
        reach >= 0 ==> within(cx + reach, cy, cx, cy, reach),
        reach >= 0 ==> within(cx - reach, cy - reach, cx, cy, reach),
        reach >= 0 ==> within(cx + reach, cy + reach, cx, cy, reach),
        !within(cx + reach + 1, cy, cx, cy, reach),
        !within(cx, cy - reach - 1, cx, cy, reach),
{
}

/// Every sector of the square of half-width `radius` that was not loaded
/// is handed back by the load, whatever the radius: the corners and the
/// middle of each edge included.
pub proof fn lemma_load_reaches_the_edges(
    old: Set<(i32, i32)>,
    cx: int,
    cy: int,
    radius: int,
    seed: u32,
    fresh: Seq<NewSector>,
    c: (i32, i32),
)
    requires
        fresh_sectors(old, cx, cy, radius, seed, fresh),
        cx - radius <= c.0 <= cx + radius,
        cy - radius <= c.1 <= cy + radius,
        !old.contains(c),
    ensures
        exists|i: int| 0 <= i < fresh.len() && cell_of(fresh[i]) == c,
        old.union(window(cx, cy, radius)).contains(c),
{
    assert(window(cx, cy, radius).contains(c));
}

/// The vision radius is the scaled zoom divided by 80 (truncated), clamped
/// into [10, 100]: it is that quotient for every scaled zoom from 800 up to
/// 8079, 10 below, 100 above, and it never decreases as the zoom grows.
pub proof fn lemma_vision_radius_is_clamped_quotient(z1: int, z2: int)
    ensures
        800 <= z1 < 8080 ==> spec_vision_radius(z1) == z1 / 80,
        800 <= z1 < 8080 ==> spec_vision_radius(z1) * 80 <= z1 < (spec_vision_radius(z1) + 1) * 80,
        z1 < 880 ==> spec_vision_radius(z1) == 10,
        z1 >= 8000 ==> spec_vision_radius(z1) == 100,
        z1 <= z2 ==> spec_vision_radius(z1) <= spec_vision_radius(z2),
        10 <= spec_vision_radius(z1) <= 100,
{
    if z1 <= z2 && z1 >= 0 {
        vstd::arithmetic::div_mod::lemma_div_is_ordered(z1, z2, 80);
    }
}

/// In a strictly increasing sequence of integers in `[0, n)` that takes
/// every value of `[0, n)`, the first `k` terms are `0, 1, ..., k - 1`.
proof fn lemma_increasing_onto_prefix(ranks: Seq<int>, n: int, k: int)
    requires
        0 <= k <= ranks.len(),
        forall|i: int, j: int| 0 <= i < j < ranks.len() ==> ranks[i] < ranks[j],
        forall|i: int| 0 <= i < ranks.len() ==> 0 <= #[trigger] ranks[i] < n,
        forall|v: int| 0 <= v < n ==> #[trigger] ranks.contains(v),
    ensures
        forall|i: int| 0 <= i < k ==> ranks[i] == i,
    decreases k,
{
    if k > 0 {
        let m = k - 1;
        lemma_increasing_onto_prefix(ranks, n, m);
        if m > 0 {
            assert(ranks[m] > ranks[m - 1]);
        }
        assert(ranks[m] >= m);
        assert(ranks.contains(m));
        let j = choose|j: int| 0 <= j < ranks.len() && ranks[j] == m;
        if j < m {
            assert(ranks[j] == j);
        } else if j > m {
            assert(ranks[j] > ranks[m]);
        }
    }
}

/// A strictly increasing sequence of integers in `[0, n)` that takes every
/// value of `[0, n)` is `0, 1, ..., n - 1`.
proof fn lemma_increasing_onto_is_identity(ranks: Seq<int>, n: int)
    requires
        n > 0,
        forall|i: int, j: int| 0 <= i < j < ranks.len() ==> ranks[i] < ranks[j],
        forall|i: int| 0 <= i < ranks.len() ==> 0 <= #[trigger] ranks[i] < n,
        forall|v: int| 0 <= v < n ==> #[trigger] ranks.contains(v),
    ensures
        ranks.len() == n,
        forall|i: int| 0 <= i < ranks.len() ==> ranks[i] == i,
{
    lemma_increasing_onto_prefix(ranks, n, ranks.len() as int);
    assert(ranks.contains(0));
    assert(ranks.contains(n - 1));
    let j = choose|j: int| 0 <= j < ranks.len() && ranks[j] == n - 1;
    assert(ranks[j] == j);
    let last = ranks.len() - 1;
    assert(ranks[last] == last);
}

/// Position of the sector `c` when the window of half-width `radius`
/// around `(cx, cy)` is read column by column, each column bottom to top.
spec fn window_rank(c: (i32, i32), cx: int, cy: int, radius: int) -> int {
    (c.0 - (cx - radius)) * (2 * radius + 1) + (c.1 - (cy - radius))
}

proof fn lemma_window_rank_bounds(c: (i32, i32), cx: int, cy: int, radius: int)
    requires
        radius >= 0,
        within(c.0 as int, c.1 as int, cx, cy, radius),
    ensures
        0 <= window_rank(c, cx, cy, radius) < (2 * radius + 1) * (2 * radius + 1),
{
    let a = c.0 - (cx - radius);
    let b = c.1 - (cy - radius);
    let w = 2 * radius + 1;
    assert(0 <= a * w + b < w * w) by (nonlinear_arith)
        requires
            0 <= a < w,
            0 <= b < w,
    ;
}

proof fn lemma_window_rank_increasing(c: (i32, i32), d: (i32, i32), cx: int, cy: int, radius: int)
    requires
        radius >= 0,
        within(c.0 as int, c.1 as int, cx, cy, radius),
        within(d.0 as int, d.1 as int, cx, cy, radius),
        row_major_before(c, d),
    ensures
        window_rank(c, cx, cy, radius) < window_rank(d, cx, cy, radius),
{
    let a1 = c.0 - (cx - radius);
    let b1 = c.1 - (cy - radius);
    let a2 = d.0 - (cx - radius);
    let b2 = d.1 - (cy - radius);
    let w = 2 * radius + 1;
    assert(a1 * w + b1 < a2 * w + b2) by (nonlinear_arith)
        requires
            0 <= b1 < w,
            0 <= b2 < w,
            a1 < a2 || (a1 == a2 && b1 < b2),
    ;
}

/// Loading a window of half-width `radius >= 0` into an empty set hands
/// back all of its `(2 * radius + 1)^2` sectors, the `k`-th being column
/// `cx - radius + k / (2 * radius + 1)`, row `cy - radius + k % (2 * radius + 1)`.
pub proof fn lemma_load_on_empty_counts_the_square(
    cx: int,
    cy: int,
    radius: int,
    seed: u32,
    fresh: Seq<NewSector>,
)
    requires
        radius >= 0,
        i32::MIN <= cx - radius,
        cx + radius <= i32::MAX,
        i32::MIN <= cy - radius,
        cy + radius <= i32::MAX,
        fresh_sectors(Set::<(i32, i32)>::empty(), cx, cy, radius, seed, fresh),
    ensures
        fresh.len() == (2 * radius + 1) * (2 * radius + 1),
        forall|k: int|
            0 <= k < fresh.len() ==> cell_of(#[trigger] fresh[k]) == (
                (cx - radius + k / (2 * radius + 1)) as i32,
                (cy - radius + k % (2 * radius + 1)) as i32,
            ),
{
    let w = 2 * radius + 1;
    let n = w * w;
    assert(n > 0) by (nonlinear_arith)
        requires
            w > 0,
            n == w * w,
    ;
    let ranks = fresh.map_values(|s: NewSector| window_rank(cell_of(s), cx, cy, radius));
    assert forall|i: int, j: int| 0 <= i < j < ranks.len() implies ranks[i] < ranks[j] by {
        assert(row_major_before(cell_of(fresh[i]), cell_of(fresh[j])));
        assert(window(cx, cy, radius).contains(cell_of(fresh[i])));
        assert(window(cx, cy, radius).contains(cell_of(fresh[j])));
        lemma_window_rank_increasing(cell_of(fresh[i]), cell_of(fresh[j]), cx, cy, radius);
    }
    assert forall|i: int| 0 <= i < ranks.len() implies 0 <= #[trigger] ranks[i] < n by {
        assert(window(cx, cy, radius).contains(cell_of(fresh[i])));
        lemma_window_rank_bounds(cell_of(fresh[i]), cx, cy, radius);
    }
    assert forall|v: int| 0 <= v < n implies #[trigger] ranks.contains(v) by {
        vstd::arithmetic::div_mod::lemma_fundamental_div_mod(v, w);
        let q = v / w;
        let r = v % w;
        assert(0 <= q < w) by {
            vstd::arithmetic::div_mod::lemma_div_pos_is_pos(v, w);
            if q >= w {
                assert(w * q >= w * w) by (nonlinear_arith)
                    requires
                        q >= w,
                        w > 0,
                ;
            }
        }
        let c: (i32, i32) = ((cx - radius + q) as i32, (cy - radius + r) as i32);
        assert(window(cx, cy, radius).contains(c));
        assert(!Set::<(i32, i32)>::empty().contains(c));
        let i = choose|i: int| 0 <= i < fresh.len() && cell_of(fresh[i]) == c;
        assert(ranks[i] == window_rank(c, cx, cy, radius));
        assert(q * w == w * q) by (nonlinear_arith);
        assert(ranks[i] == v);
    }
    lemma_increasing_onto_is_identity(ranks, n);
    assert forall|k: int| 0 <= k < fresh.len() implies cell_of(#[trigger] fresh[k]) == (
        (cx - radius + k / w) as i32,
        (cy - radius + k % w) as i32,
    ) by {
        let c = cell_of(fresh[k]);
        assert(ranks[k] == k);
        assert(window(cx, cy, radius).contains(c));
        vstd::arithmetic::div_mod::lemma_fundamental_div_mod_converse(
            k,
            w,
            c.0 - (cx - radius),
            c.1 - (cy - radius),
        );
    }
}

} // verus!
