//! Row-major grids: pixel indices, coordinates and neighborhoods.
//!
//! Both the input image and the output (superpixel) image are stored row by
//! row, so the pixel in column `x` and row `y` of a grid `w` wide lives at
//! index `y * w + x`.

use vstd::prelude::*;
use vstd::arithmetic::div_mod::{lemma_fundamental_div_mod, lemma_fundamental_div_mod_converse};

verus! {

/// Row-major index of the pixel at column `x`, row `y` of a grid `w` wide.
pub open spec fn spec_index(x: int, y: int, w: int) -> int {
    y * w + x
}

/// Index of the in-bounds pixel displaced by `(dx, dy)` from `(x, y)` in a
/// `w x h` grid, or `None` when the displaced position leaves the grid.
pub open spec fn spec_neighbor(x: int, y: int, dx: int, dy: int, w: int, h: int) -> Option<int> {
    let nx = x + dx;
    let ny = y + dy;
    if 0 <= nx < w && 0 <= ny < h {
        Some(spec_index(nx, ny, w))
    } else {
        None
    }
}

/// The index held by `o`, as a sequence of zero or one elements.
pub open spec fn opt_seq(o: Option<int>) -> Seq<usize> {
    match o {
        Some(i) => seq![i as usize],
        None => Seq::empty(),
    }
}

/// In-bounds 4-connected neighbors of `(x, y)`: left, right, above, below.
pub open spec fn spec_neighbors4(x: int, y: int, w: int, h: int) -> Seq<usize> {
    opt_seq(spec_neighbor(x, y, -1, 0, w, h)) + opt_seq(spec_neighbor(x, y, 1, 0, w, h))
        + opt_seq(spec_neighbor(x, y, 0, -1, w, h)) + opt_seq(spec_neighbor(x, y, 0, 1, w, h))
}

/// Index `j` of a `w x h` grid lies in the square window of radius `r`
/// around `(x, y)`.
pub open spec fn in_window(j: int, x: int, y: int, w: int, h: int, r: int) -> bool {
    &&& 0 <= j < w * h
    &&& x - r <= j % w <= x + r
    &&& y - r <= j / w <= y + r
}

/// Squared spatial distance between index `j` and pixel `(x, y)`.
pub open spec fn window_dist_sq(j: int, x: int, y: int, w: int) -> int {
    (j % w - x) * (j % w - x) + (j / w - y) * (j / w - y)
}

/// Index and coordinates are inverse to each other: the pixel at `(x, y)`
/// is found again at its index, and every index names exactly one pixel.
pub proof fn lemma_index_coords_inverse(x: int, y: int, w: int, i: int)
    requires
        w > 0,
        0 <= x < w,
    ensures
        spec_index(x, y, w) % w == x,
        spec_index(x, y, w) / w == y,
        spec_index(i % w, i / w, w) == i,
{
    lemma_fundamental_div_mod_converse(y * w + x, w, y, x);
    lemma_fundamental_div_mod(i, w);
    assert(w * (i / w) == (i / w) * w) by (nonlinear_arith);
}

/// An index lies inside a `w x h` grid exactly when its row does.
proof fn lemma_index_in_grid(j: int, w: int, h: int)
    requires
        w > 0,
        h >= 0,
        0 <= j,
    ensures
        j < w * h <==> j / w < h,
        0 <= j % w < w,
        0 <= j / w,
{
    lemma_fundamental_div_mod(j, w);
    let q = j / w;
    let r = j % w;
    assert(0 <= r < w);
    assert(q >= 0) by (nonlinear_arith)
        requires j == w * q + r, 0 <= r < w, j >= 0, w > 0;
    if q < h {
        assert(w * q + r < w * h) by (nonlinear_arith)
            requires q < h, r < w, w > 0, q >= 0;
    } else {
        assert(w * q + r >= w * h) by (nonlinear_arith)
            requires q >= h, r >= 0, w > 0, h >= 0;
    }
}

/// Index of pixel `(x, y)` in a row-major grid of width `w`.
pub fn pixel_index(x: usize, y: usize, w: usize) -> (i: usize)
    requires
        x < w,
        y * w + x <= usize::MAX,
    ensures
        i == spec_index(x as int, y as int, w as int),
        i == y * w + x,
        i as int % w as int == x,
        i as int / w as int == y,
{
    proof {
        lemma_index_coords_inverse(x as int, y as int, w as int, 0);
    }
    y * w + x
}

/// Column and row of the pixel stored at index `i` of a grid `w` wide.
pub fn pixel_coords(i: usize, w: usize) -> (xy: (usize, usize))
    requires
        w > 0,
    ensures
        xy.0 == i % w,
        xy.1 == i / w,
        spec_index(xy.0 as int, xy.1 as int, w as int) == i,
{
    proof {
        lemma_index_coords_inverse(0, 0, w as int, i as int);
    }
    (i % w, i / w)
}

/// Grid coordinates `(x, y)` of every cell of a `w x h` grid, in row-major
/// order: these are the output pixels that the superpixels stand for.
pub fn grid_cells(w: usize, h: usize) -> (cells: Vec<(usize, usize)>)
    requires
        w * h <= usize::MAX,
    ensures
        cells.len() == w * h,
        forall|s: int| 0 <= s < w * h ==> #[trigger] cells@[s] == (
            (s % w as int) as usize,
            (s / w as int) as usize,
        ),
        forall|x: int, y: int|
            0 <= x < w && 0 <= y < h ==> #[trigger] cells@[spec_index(x, y, w as int)] == (
                x as usize,
                y as usize,
            ),
{
    let mut cells: Vec<(usize, usize)> = Vec::new();
    let mut gy: usize = 0;
    while gy < h
        invariant
            w * h <= usize::MAX,
            gy <= h,
            cells.len() == gy * w,
            w > 0 ==> forall|s: int| 0 <= s < cells.len() ==> #[trigger] cells@[s] == (
                (s % w as int) as usize,
                (s / w as int) as usize,
            ),
        decreases h - gy,
    {
        let mut gx: usize = 0;
        assert(gy * w + w <= w * h) by (nonlinear_arith)
            requires gy < h;
        while gx < w
            invariant
                w * h <= usize::MAX,
                gy < h,
                gx <= w,
                gy * w + w <= w * h,
                cells.len() == gy * w + gx,
                w > 0 ==> forall|s: int| 0 <= s < cells.len() ==> #[trigger] cells@[s] == (
                    (s % w as int) as usize,
                    (s / w as int) as usize,
                ),
            decreases w - gx,
        {
            proof {
                lemma_index_coords_inverse(gx as int, gy as int, w as int, 0);
            }
            cells.push((gx, gy));
            gx += 1;
        }
        assert(cells.len() == (gy + 1) * w) by (nonlinear_arith)
            requires cells.len() == gy * w + w;
        gy += 1;
    }
    assert(cells.len() == w * h) by (nonlinear_arith)
        requires cells.len() == gy * w, gy == h;
    assert forall|x: int, y: int|
        0 <= x < w && 0 <= y < h implies #[trigger] cells@[spec_index(x, y, w as int)] == (
            x as usize,
            y as usize,
        ) by {
        lemma_index_coords_inverse(x, y, w as int, 0);
        assert(spec_index(x, y, w as int) < w * h) by (nonlinear_arith)
            requires 0 <= x < w, 0 <= y < h;
    }
    cells
}

/// A displaced position is a neighbor exactly when its column lies in
/// `0..w` and its row in `0..h`, and the neighbor's index names that column
/// and row: stepping off one side of the grid never wraps to another row.
pub proof fn lemma_neighbor_position(x: int, y: int, dx: int, dy: int, w: int, h: int)
    requires
        w >= 0,
        h >= 0,
    ensures
        spec_neighbor(x, y, dx, dy, w, h) is Some <==> (0 <= x + dx < w && 0 <= y + dy < h),
        spec_neighbor(x, y, dx, dy, w, h) matches Some(i) ==> {
            &&& 0 <= i < w * h
            &&& i % w == x + dx
            &&& i / w == y + dy
        },
{
    if 0 <= x + dx < w && 0 <= y + dy < h {
        lemma_index_coords_inverse(x + dx, y + dy, w, 0);
        assert((y + dy) * w + (x + dx) < w * h) by (nonlinear_arith)
            requires 0 <= x + dx < w, 0 <= y + dy < h;
        assert((y + dy) * w + (x + dx) >= 0) by (nonlinear_arith)
            requires 0 <= x + dx, 0 <= y + dy, w >= 0;
    }
}

/// Cell `j` of a grid `w` wide is one of the four cells next to `(x, y)`.
pub open spec fn adjacent(j: int, x: int, y: int, w: int) -> bool {
    ||| (j % w == x - 1 || j % w == x + 1) && j / w == y
    ||| j % w == x && (j / w == y - 1 || j / w == y + 1)
}

proof fn lemma_opt_seq(o: Option<int>)
    ensures
        opt_seq(o).len() == (if o is Some { 1int } else { 0int }),
        o matches Some(i) ==> opt_seq(o)[0] == i as usize,
{
}

/// The 4-neighborhood of a cell lists each in-grid cell next to it exactly
/// once and nothing else: at most four distinct indices, every one of an
/// adjacent cell, and every adjacent cell inside the grid among them.
pub proof fn lemma_neighbors4_exact(x: int, y: int, w: int, h: int)
    requires
        w >= 0,
        h >= 0,
        w * h <= usize::MAX,
    ensures
        spec_neighbors4(x, y, w, h).len() <= 4,
        forall|t: int| 0 <= t < spec_neighbors4(x, y, w, h).len() ==> {
            &&& #[trigger] spec_neighbors4(x, y, w, h)[t] < w * h
            &&& adjacent(spec_neighbors4(x, y, w, h)[t] as int, x, y, w)
        },
        forall|t1: int, t2: int|
            0 <= t1 < t2 < spec_neighbors4(x, y, w, h).len() ==> spec_neighbors4(x, y, w, h)[t1]
                != spec_neighbors4(x, y, w, h)[t2],
        0 <= x - 1 < w && 0 <= y < h ==> spec_neighbors4(x, y, w, h).contains((y * w + x - 1) as usize),
        0 <= x + 1 < w && 0 <= y < h ==> spec_neighbors4(x, y, w, h).contains((y * w + x + 1) as usize),
        0 <= x < w && 0 <= y - 1 < h ==> spec_neighbors4(x, y, w, h).contains(((y - 1) * w + x) as usize),
        0 <= x < w && 0 <= y + 1 < h ==> spec_neighbors4(x, y, w, h).contains(((y + 1) * w + x) as usize),
{
    let o0 = spec_neighbor(x, y, -1, 0, w, h);
    let o1 = spec_neighbor(x, y, 1, 0, w, h);
    let o2 = spec_neighbor(x, y, 0, -1, w, h);
    let o3 = spec_neighbor(x, y, 0, 1, w, h);
    lemma_neighbor_position(x, y, -1, 0, w, h);
    lemma_neighbor_position(x, y, 1, 0, w, h);
    lemma_neighbor_position(x, y, 0, -1, w, h);
    lemma_neighbor_position(x, y, 0, 1, w, h);
    lemma_opt_seq(o0);
    lemma_opt_seq(o1);
    lemma_opt_seq(o2);
    lemma_opt_seq(o3);
    let (a, b, c, d) = (opt_seq(o0), opt_seq(o1), opt_seq(o2), opt_seq(o3));
    let ns = spec_neighbors4(x, y, w, h);
    assert(ns == a + b + c + d);
    let la = a.len() as int;
    let lb = b.len() as int;
    let lc = c.len() as int;
    // The step that produced entry `t`, and its offset.
    let step = |t: int| if t < la { 0int } else if t < la + lb { 1int } else if t < la + lb + lc { 2int } else { 3int };
    let sx = |q: int| if q == 0 { -1int } else if q == 1 { 1int } else { 0int };
    let sy = |q: int| if q == 2 { -1int } else if q == 3 { 1int } else { 0int };
    assert forall|t: int| 0 <= t < ns.len() implies {
        &&& 0 <= x + sx(step(t)) < w
        &&& 0 <= y + sy(step(t)) < h
        &&& #[trigger] ns[t] as int % w == x + sx(step(t))
        &&& ns[t] as int / w == y + sy(step(t))
        &&& ns[t] < w * h
    } by {
        if t < la {
            assert(ns[t] == a[0]);
        } else if t < la + lb {
            assert(ns[t] == b[0]);
        } else if t < la + lb + lc {
            assert(ns[t] == c[0]);
        } else {
            assert(ns[t] == d[t - la - lb - lc]);
        }
    }
    assert forall|t: int| 0 <= t < ns.len() implies {
        &&& #[trigger] ns[t] < w * h
        &&& adjacent(ns[t] as int, x, y, w)
    } by {
        assert(ns[t] as int % w == x + sx(step(t)));
    }
    assert forall|t1: int, t2: int| 0 <= t1 < t2 < ns.len() implies ns[t1] != ns[t2] by {
        assert(ns[t1] as int % w == x + sx(step(t1)));
        assert(ns[t2] as int % w == x + sx(step(t2)));
        assert(step(t1) < step(t2));
    }
    if 0 <= x - 1 < w && 0 <= y < h {
        assert(ns[0] == a[0]);
    }
    if 0 <= x + 1 < w && 0 <= y < h {
        assert(ns[a.len() as int] == b[0]);
    }
    if 0 <= x < w && 0 <= y - 1 < h {
        assert(ns[(a.len() + b.len()) as int] == c[0]);
    }
    if 0 <= x < w && 0 <= y + 1 < h {
        assert(ns[(a.len() + b.len() + c.len()) as int] == d[0]);
    }
}

/// Index of the pixel displaced by `(dx, dy)` from `(x, y)` in a `w x h`
/// grid, or `None` when that position lies outside the grid.
pub fn neighbor_index(x: usize, y: usize, dx: i64, dy: i64, w: usize, h: usize) -> (n: Option<usize>)
    requires
        x <= i64::MAX,
        y <= i64::MAX,
        w * h <= usize::MAX,
        w <= i64::MAX,
        h <= i64::MAX,
        i64::MIN <= x + dx <= i64::MAX,
        i64::MIN <= y + dy <= i64::MAX,
    ensures
        n == match spec_neighbor(x as int, y as int, dx as int, dy as int, w as int, h as int) {
            Some(i) => Some(i as usize),
            None => None::<usize>,
        },
        n matches Some(i) ==> i < w * h,
        n is Some <==> (0 <= x + dx < w && 0 <= y + dy < h),
        n matches Some(i) ==> i as int % w as int == x + dx && i as int / w as int == y + dy,
{
    proof {
        lemma_neighbor_position(x as int, y as int, dx as int, dy as int, w as int, h as int);
    }
    let nx: i64 = x as i64 + dx;
    let ny: i64 = y as i64 + dy;
    if nx < 0 || ny < 0 || nx >= w as i64 || ny >= h as i64 {
        None
    } else {
        let ux = nx as usize;
        let uy = ny as usize;
        assert(uy * w + ux < w * h) by (nonlinear_arith)
            requires ux < w, uy < h;
        Some(uy * w + ux)
    }
}

/// Indices of the in-bounds 4-connected neighbors of cell `(x, y)` of a
/// `w x h` grid, in the order left, right, above, below.
pub fn neighbors4(x: usize, y: usize, w: usize, h: usize) -> (ns: Vec<usize>)
    requires
        x < i64::MAX,
        y < i64::MAX,
        w * h <= usize::MAX,
        w <= i64::MAX,
        h <= i64::MAX,
    ensures
        ns@ == spec_neighbors4(x as int, y as int, w as int, h as int),
        forall|t: int| 0 <= t < ns.len() ==> #[trigger] ns@[t] < w * h,
        ns.len() <= 4,
        forall|t: int| 0 <= t < ns.len() ==> {
            ||| (#[trigger] ns@[t] as int % w as int == x - 1 || ns@[t] as int % w as int == x + 1)
                && ns@[t] as int / w as int == y
            ||| ns@[t] as int % w as int == x && (ns@[t] as int / w as int == y - 1 || ns@[t] as int / w as int == y + 1)
        },
        forall|t1: int, t2: int| 0 <= t1 < t2 < ns.len() ==> ns@[t1] != ns@[t2],
        0 < x < w + 1 && y < h ==> ns@.contains((y * w + x - 1) as usize),
        x + 1 < w && y < h ==> ns@.contains((y * w + x + 1) as usize),
        x < w && 0 < y < h + 1 ==> ns@.contains(((y - 1) * w + x) as usize),
        x < w && y + 1 < h ==> ns@.contains(((y + 1) * w + x) as usize),
{
    proof {
        lemma_neighbors4_exact(x as int, y as int, w as int, h as int);
    }
    let mut ns: Vec<usize> = Vec::new();
    let ghost mut expected: Seq<usize> = Seq::empty();
    let offsets: [(i64, i64); 4] = [(-1, 0), (1, 0), (0, -1), (0, 1)];
    let mut t: usize = 0;
    while t < 4
        invariant
            x < i64::MAX,
            y < i64::MAX,
            w * h <= usize::MAX,
            w <= i64::MAX,
            h <= i64::MAX,
            t <= 4,
            offsets@ == seq![(-1i64, 0i64), (1i64, 0i64), (0i64, -1i64), (0i64, 1i64)],
            ns@ == expected,
            forall|k: int| 0 <= k < ns.len() ==> #[trigger] ns@[k] < w * h,
            expected == (if t == 0 {
                Seq::empty()
            } else if t == 1 {
                opt_seq(spec_neighbor(x as int, y as int, -1, 0, w as int, h as int))
            } else if t == 2 {
                opt_seq(spec_neighbor(x as int, y as int, -1, 0, w as int, h as int))
                    + opt_seq(spec_neighbor(x as int, y as int, 1, 0, w as int, h as int))
            } else if t == 3 {
                opt_seq(spec_neighbor(x as int, y as int, -1, 0, w as int, h as int))
                    + opt_seq(spec_neighbor(x as int, y as int, 1, 0, w as int, h as int))
                    + opt_seq(spec_neighbor(x as int, y as int, 0, -1, w as int, h as int))
            } else {
                spec_neighbors4(x as int, y as int, w as int, h as int)
            }),
        decreases 4 - t,
    {
        let (dx, dy) = offsets[t];
        let n = neighbor_index(x, y, dx, dy, w, h);
        proof {
            expected = expected + opt_seq(spec_neighbor(x as int, y as int, dx as int, dy as int, w as int, h as int));
        }
        match n {
            Some(i) => {
                ns.push(i);
            },
            None => {},
        }
        assert(ns@ == expected);
        t += 1;
    }
    ns
}

/// Columns (or rows) `lo..=hi` of the search window of radius `radius`
/// around `center`, clipped to a line of `len` pixels. `lo > hi` when the
/// window misses the line entirely on the far side.
pub fn search_window(center: i64, radius: i64, len: usize) -> (lohi: (usize, usize))
    requires
        len <= i64::MAX,
        i64::MIN <= center - radius <= i64::MAX,
        i64::MIN <= center + radius <= i64::MAX,
        center - radius <= usize::MAX,
    ensures
        lohi.0 == (if center - radius > 0 { center - radius } else { 0 }),
        lohi.1 == ({
            let m = if center + radius < len - 1 { center + radius } else { len - 1 };
            if m > 0 { m } else { 0 }
        }),
{
    let lo: i64 = if center - radius > 0 { center - radius } else { 0 };
    let last: i64 = len as i64 - 1;
    let m: i64 = if center + radius < last { center + radius } else { last };
    let hi: i64 = if m > 0 { m } else { 0 };
    (lo as usize, hi as usize)
}

/// Index `j` comes before column `col` of row `row` in row-major order.
pub open spec fn before(j: int, row: int, col: int, w: int) -> bool {
    j / w < row || (j / w == row && j % w < col)
}

/// Some entry of `ns` holds index `j`.
pub open spec fn covers(ns: Seq<(usize, u64)>, j: int) -> bool {
    exists|t: int| 0 <= t < ns.len() && #[trigger] ns[t].0 == j
}

/// What holds of the window scan once every pixel before `(col, row)` has
/// been visited: exactly the window pixels visited so far are listed, each
/// with its squared distance, in increasing index order.
pub open spec fn scanned(
    ns: Seq<(usize, u64)>,
    x: int,
    y: int,
    w: int,
    h: int,
    r: int,
    row: int,
    col: int,
) -> bool {
    &&& forall|t: int|
        0 <= t < ns.len() ==> {
            &&& in_window(#[trigger] ns[t].0 as int, x, y, w, h, r)
            &&& ns[t].1 == window_dist_sq(ns[t].0 as int, x, y, w)
            &&& before(ns[t].0 as int, row, col, w)
            &&& ns[t].0 < row * w + col
        }
    &&& forall|t1: int, t2: int| 0 <= t1 < t2 < ns.len() ==> ns[t1].0 < ns[t2].0
    &&& forall|j: int|
        #[trigger] in_window(j, x, y, w, h, r) && before(j, row, col, w) ==> covers(ns, j)
}

/// The pixels of the square window of radius `radius` around `(x, y)` that
/// lie inside the `w x h` grid, scanned row by row, each with its squared
/// spatial distance to `(x, y)`.
#[verifier::spinoff_prover]
pub fn window_neighbors(x: usize, y: usize, w: usize, h: usize, radius: usize) -> (ns: Vec<(usize, u64)>)
    requires
        x < w,
        y < h,
        w * h <= usize::MAX,
        radius <= 3_037_000_499,
    ensures
        forall|t: int|
            0 <= t < ns.len() ==> {
                &&& in_window(#[trigger] ns@[t].0 as int, x as int, y as int, w as int, h as int, radius as int)
                &&& ns@[t].1 == window_dist_sq(ns@[t].0 as int, x as int, y as int, w as int)
            },
        forall|t1: int, t2: int| 0 <= t1 < t2 < ns.len() ==> ns@[t1].0 < ns@[t2].0,
        forall|j: int|
            #[trigger] in_window(j, x as int, y as int, w as int, h as int, radius as int) ==> covers(ns@, j),
        forall|t: int|
            0 <= t < ns.len() ==> {
                &&& #[trigger] ns@[t].0 < w * h
                &&& x - radius <= ns@[t].0 as int % w as int <= x + radius
                &&& y - radius <= ns@[t].0 as int / w as int <= y + radius
                &&& ns@[t].1 == (ns@[t].0 as int % w as int - x) * (ns@[t].0 as int % w as int - x)
                    + (ns@[t].0 as int / w as int - y) * (ns@[t].0 as int / w as int - y)
            },
        ns.len() == ((if x + radius < w - 1 { x + radius } else { w - 1 }) - (if x - radius > 0 { x - radius } else { 0 }) + 1)
            * ((if y + radius < h - 1 { y + radius } else { h - 1 }) - (if y - radius > 0 { y - radius } else { 0 }) + 1),
{
    let x0: usize = if x >= radius { x - radius } else { 0 };
    let x1: usize = if radius <= w - 1 - x { x + radius } else { w - 1 };
    let y0: usize = if y >= radius { y - radius } else { 0 };
    let y1: usize = if radius <= h - 1 - y { y + radius } else { h - 1 };
    let ghost (xi, yi, wi, hi, ri) = (x as int, y as int, w as int, h as int, radius as int);
    let mut ns: Vec<(usize, u64)> = Vec::new();
    assert forall|j: int| #[trigger] in_window(j, xi, yi, wi, hi, ri) implies !before(j, y0 as int, x0 as int, wi) by {
        lemma_index_in_grid(j, wi, hi);
    }
    let mut ny: usize = y0;
    while ny <= y1
        invariant
            x < w,
            y < h,
            w * h <= usize::MAX,
            radius <= 3_037_000_499,
            xi == x, yi == y, wi == w, hi == h, ri == radius,
            x0 == (if xi - ri > 0 { xi - ri } else { 0 }),
            x1 == (if xi + ri < wi - 1 { xi + ri } else { wi - 1 }),
            y0 == (if yi - ri > 0 { yi - ri } else { 0 }),
            y1 == (if yi + ri < hi - 1 { yi + ri } else { hi - 1 }),
            y0 <= ny <= y1 + 1,
            scanned(ns@, xi, yi, wi, hi, ri, ny as int, x0 as int),
            ns@.len() == (ny - y0) * (x1 - x0 + 1),
        decreases y1 + 1 - ny,
    {
        let mut nx: usize = x0;
        while nx <= x1
            invariant
                x < w,
                y < h,
                w * h <= usize::MAX,
                radius <= 3_037_000_499,
                xi == x, yi == y, wi == w, hi == h, ri == radius,
                x0 == (if xi - ri > 0 { xi - ri } else { 0 }),
                x1 == (if xi + ri < wi - 1 { xi + ri } else { wi - 1 }),
                y0 == (if yi - ri > 0 { yi - ri } else { 0 }),
                y1 == (if yi + ri < hi - 1 { yi + ri } else { hi - 1 }),
                y0 <= ny <= y1,
                x0 <= nx <= x1 + 1,
                scanned(ns@, xi, yi, wi, hi, ri, ny as int, nx as int),
                ns@.len() == (ny - y0) * (x1 - x0 + 1) + (nx - x0),
            decreases x1 + 1 - nx,
        {
            assert(ny * w + nx < w * h) by (nonlinear_arith)
                requires nx < w, ny < h;
            let j: usize = ny * w + nx;
            let dx: u64 = if nx >= x { (nx - x) as u64 } else { (x - nx) as u64 };
            let dy: u64 = if ny >= y { (ny - y) as u64 } else { (y - ny) as u64 };
            assert(dx * dx + dy * dy <= 18_446_744_061_852_498_002u64) by (nonlinear_arith)
                requires dx <= 3_037_000_499u64, dy <= 3_037_000_499u64;
            let ds: u64 = dx * dx + dy * dy;
            proof {
                lemma_index_coords_inverse(nx as int, ny as int, wi, 0);
                assert(dx * dx == (nx - xi) * (nx - xi)) by (nonlinear_arith)
                    requires dx == nx - xi || dx == xi - nx;
                assert(dy * dy == (ny - yi) * (ny - yi)) by (nonlinear_arith)
                    requires dy == ny - yi || dy == yi - ny;
            }
            let ghost old_ns = ns@;
            ns.push((j, ds));
            proof {
                assert(ns@[old_ns.len() as int].0 == j);
                assert forall|t: int| 0 <= t < ns@.len() implies {
                    &&& in_window(#[trigger] ns@[t].0 as int, xi, yi, wi, hi, ri)
                    &&& ns@[t].1 == window_dist_sq(ns@[t].0 as int, xi, yi, wi)
                    &&& before(ns@[t].0 as int, ny as int, nx + 1, wi)
                    &&& ns@[t].0 < ny * w + nx + 1
                } by {
                    if t < old_ns.len() {
                        assert(ns@[t] == old_ns[t]);
                    }
                }
                assert forall|j2: int|
                    #[trigger] in_window(j2, xi, yi, wi, hi, ri) && before(j2, ny as int, nx + 1, wi)
                    implies covers(ns@, j2) by {
                    if before(j2, ny as int, nx as int, wi) {
                        let t = choose|t: int| 0 <= t < old_ns.len() && #[trigger] old_ns[t].0 == j2;
                        assert(ns@[t] == old_ns[t]);
                    } else {
                        lemma_index_coords_inverse(0, 0, wi, j2);
                        assert(j2 == j);
                        assert(ns@[old_ns.len() as int].0 == j2);
                    }
                }
            }
            nx += 1;
        }
        proof {
            assert forall|t: int| 0 <= t < ns@.len() implies
                #[trigger] before(ns@[t].0 as int, ny + 1, x0 as int, wi)
                && ns@[t].0 < (ny + 1) * w + x0 by {
                assert(ns@[t].0 < ny * w + nx);
                assert(ny * w + nx <= (ny + 1) * w + x0) by (nonlinear_arith)
                    requires nx <= w, x0 >= 0;
            }
            assert forall|j2: int|
                #[trigger] in_window(j2, xi, yi, wi, hi, ri) && before(j2, ny + 1, x0 as int, wi)
                implies covers(ns@, j2) by {
                lemma_index_in_grid(j2, wi, hi);
                assert(before(j2, ny as int, nx as int, wi));
            }
            assert forall|t: int| 0 <= t < ns@.len() implies {
                &&& in_window(#[trigger] ns@[t].0 as int, xi, yi, wi, hi, ri)
                &&& ns@[t].1 == window_dist_sq(ns@[t].0 as int, xi, yi, wi)
                &&& before(ns@[t].0 as int, ny + 1, x0 as int, wi)
                &&& ns@[t].0 < (ny + 1) * w + x0
            } by {
                assert(before(ns@[t].0 as int, ny + 1, x0 as int, wi));
            }
            assert(forall|t1: int, t2: int| 0 <= t1 < t2 < ns@.len() ==> ns@[t1].0 < ns@[t2].0);
            assert(scanned(ns@, xi, yi, wi, hi, ri, ny + 1, x0 as int));
            assert(ns@.len() == (ny + 1 - y0) * (x1 - x0 + 1)) by (nonlinear_arith)
                requires ns@.len() == (ny - y0) * (x1 - x0 + 1) + (nx - x0), nx == x1 + 1;
        }
        ny += 1;
    }
    assert forall|j: int| #[trigger] in_window(j, xi, yi, wi, hi, ri) implies covers(ns@, j) by {
        lemma_index_in_grid(j, wi, hi);
        assert(before(j, ny as int, x0 as int, wi));
    }
    assert(ns@.len() == (x1 - x0 + 1) * (y1 - y0 + 1)) by (nonlinear_arith)
        requires ns@.len() == (ny - y0) * (x1 - x0 + 1), ny == y1 + 1;
    ns
}

} // verus!
