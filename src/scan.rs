//! Destination coordinates of the cells of a luminance grid.
use vstd::prelude::*;

verus! {

/// Top-left pixel, along one axis of `out` pixels, of cell `i` of a grid
/// that has `grid` cells along that axis.
pub open spec fn scan_coord(i: int, out: int, grid: int) -> int {
    i * out / grid
}

/// Why a scan map could not be built.
#[derive(Debug, Clone, Copy, PartialEq, Eq, Structural)]
pub enum ScanError {
    /// The grid has no columns or no rows.
    InvalidGridDimensions,
}

/// Where each column and each row of the grid lands in the output frame.
pub struct RenderData {
    /// Grid columns.
    pub r_w: usize,
    /// Grid rows.
    pub r_h: usize,
    /// Output frame width in pixels.
    pub dst_w: u32,
    /// Output frame height in pixels.
    pub dst_h: u32,
    /// Left edge of each grid column.
    pub x: Vec<usize>,
    /// Top edge of each grid row.
    pub y: Vec<usize>,
}

impl RenderData {
    /// The map is laid out as `new` builds it.
    pub open spec fn wf(&self) -> bool {
        &&& self.r_w > 0
        &&& self.r_h > 0
        &&& self.x@.len() == self.r_w
        &&& self.y@.len() == self.r_h
        &&& forall|i: int| 0 <= i < self.r_w ==> self.x@[i] == scan_coord(i, self.dst_w as int, self.r_w as int)
        &&& forall|j: int| 0 <= j < self.r_h ==> self.y@[j] == scan_coord(j, self.dst_h as int, self.r_h as int)
    }

    /// Builds the map for an `r_w` by `r_h` grid drawn onto a `dst_w` by
    /// `dst_h` frame: column `i` starts at `i * dst_w / r_w` (rounded down),
    /// row `j` at `j * dst_h / r_h`.
    pub fn new(r_w: u32, r_h: u32, dst_w: u32, dst_h: u32) -> (r: Result<RenderData, ScanError>)
        ensures
            r is Err <==> (r_w == 0 || r_h == 0),
            r is Err ==> r == Err::<RenderData, ScanError>(ScanError::InvalidGridDimensions),
            r matches Ok(m) ==> {
                &&& m.wf()
                &&& m.r_w == r_w
                &&& m.r_h == r_h
                &&& m.dst_w == dst_w
                &&& m.dst_h == dst_h
            },
    {
        if r_w == 0 || r_h == 0 {
            return Err(ScanError::InvalidGridDimensions);
        }
        let x = scan_axis(r_w, dst_w);
        let y = scan_axis(r_h, dst_h);
        Ok(RenderData { r_w: r_w as usize, r_h: r_h as usize, dst_w, dst_h, x, y })
    }
}

fn scan_axis(grid: u32, out: u32) -> (v: Vec<usize>)
    requires
        grid > 0,
    ensures
        v@.len() == grid,
        forall|i: int| 0 <= i < grid ==> v@[i] == scan_coord(i, out as int, grid as int),
{
    let mut v: Vec<usize> = Vec::new();
    let mut i: u32 = 0;
    while i < grid
        invariant
            grid > 0,
            i <= grid,
            v@.len() == i,
            forall|k: int| 0 <= k < i ==> v@[k] == scan_coord(k, out as int, grid as int),
        decreases grid - i,
    {
        assert(i as u64 * out as u64 <= u32::MAX as u64 * u32::MAX as u64) by (nonlinear_arith)
            requires i <= u32::MAX, out <= u32::MAX;
        let p: u64 = i as u64 * out as u64;
        let c: u64 = p / grid as u64;
        proof {
            lemma_scan_coord_within(i as int, out as int, grid as int);
        }
        v.push(c as usize);
        i = i + 1;
    }
    v
}

proof fn lemma_scan_coord_within(i: int, out: int, grid: int)
    requires
        0 <= i < grid,
        0 <= out,
    ensures
        0 <= scan_coord(i, out, grid) <= out,
{
    assert(0 <= i * out <= grid * out) by (nonlinear_arith)
        requires 0 <= i < grid, 0 <= out;
    assert(0 <= (i * out) / grid <= out) by (nonlinear_arith)
        requires 0 <= i * out <= grid * out, 0 < grid;
}

/// A cell's coordinate lies inside the axis, and the first cell starts at 0.
pub proof fn lemma_scan_coord_bounds(i: int, out: int, grid: int)
    requires
        0 <= i < grid,
        0 < out,
    ensures
        0 <= scan_coord(i, out, grid) < out,
        i == 0 ==> scan_coord(i, out, grid) == 0,
{
    assert(0 <= i * out < grid * out) by (nonlinear_arith)
        requires 0 <= i < grid, 0 < out;
    assert(0 <= (i * out) / grid < out) by (nonlinear_arith)
        requires 0 <= i * out < grid * out, 0 < grid;
}

/// Cell coordinates never decrease along an axis.
pub proof fn lemma_scan_coord_monotone(i: int, j: int, out: int, grid: int)
    requires
        0 <= i <= j,
        0 <= out,
        0 < grid,
    ensures
        scan_coord(i, out, grid) <= scan_coord(j, out, grid),
{
    assert(i * out <= j * out) by (nonlinear_arith)
        requires 0 <= i <= j, 0 <= out;
    vstd::arithmetic::div_mod::lemma_div_is_ordered(i * out, j * out, grid);
}

/// When `cell * grid <= out`, a cell of width `cell` stamped at the
/// coordinate of cell `i` ends at or before the coordinate of any later cell
/// `j`, where cell `grid` stands for the end of the axis.
pub proof fn lemma_scan_cells_disjoint(i: int, j: int, cell: int, out: int, grid: int)
    requires
        0 <= i < j <= grid,
        0 <= cell,
        cell * grid <= out,
    ensures
        scan_coord(i, out, grid) + cell <= scan_coord(j, out, grid),
{
    let q = i * out / grid;
    let r = i * out % grid;
    vstd::arithmetic::div_mod::lemma_fundamental_div_mod(i * out, grid);
    assert(j * out >= i * out + cell * grid) by (nonlinear_arith)
        requires 0 <= i < j, cell * grid <= out, 0 <= cell, 0 < grid;
    assert((q + cell) * grid <= j * out) by (nonlinear_arith)
        requires i * out == grid * q + r, 0 <= r, j * out >= i * out + cell * grid;
    vstd::arithmetic::div_mod::lemma_div_is_ordered((q + cell) * grid, j * out, grid);
    vstd::arithmetic::div_mod::lemma_div_multiples_vanish(q + cell, grid);
}

/// The destination map of a grid lies inside the frame: along each axis the
/// coordinates never decrease, each is less than the frame's extent on that
/// axis, and the first is 0.
pub proof fn lemma_scan_map_in_frame(m: &RenderData)
    requires
        m.wf(),
        m.dst_w > 0,
        m.dst_h > 0,
    ensures
        forall|i: int, j: int| 0 <= i <= j < m.r_w ==> m.x@[i] <= m.x@[j],
        forall|i: int, j: int| 0 <= i <= j < m.r_h ==> m.y@[i] <= m.y@[j],
        forall|i: int| 0 <= i < m.r_w ==> m.x@[i] < m.dst_w,
        forall|j: int| 0 <= j < m.r_h ==> m.y@[j] < m.dst_h,
        m.x@[0] == 0,
        m.y@[0] == 0,
{
    assert forall|i: int, j: int| 0 <= i <= j < m.r_w implies m.x@[i] <= m.x@[j] by {
        lemma_scan_coord_monotone(i, j, m.dst_w as int, m.r_w as int);
    }
    assert forall|i: int, j: int| 0 <= i <= j < m.r_h implies m.y@[i] <= m.y@[j] by {
        lemma_scan_coord_monotone(i, j, m.dst_h as int, m.r_h as int);
    }
    assert forall|i: int| 0 <= i < m.r_w implies m.x@[i] < m.dst_w by {
        lemma_scan_coord_bounds(i, m.dst_w as int, m.r_w as int);
    }
    assert forall|j: int| 0 <= j < m.r_h implies m.y@[j] < m.dst_h by {
        lemma_scan_coord_bounds(j, m.dst_h as int, m.r_h as int);
    }
    lemma_scan_coord_bounds(0, m.dst_w as int, m.r_w as int);
    lemma_scan_coord_bounds(0, m.dst_h as int, m.r_h as int);
}

} // verus!
