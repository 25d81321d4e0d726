//! The sizes of the output frame, its cells and the luminance grid.
use vstd::prelude::*;

verus! {

/// Why the sizes of a run could not be worked out.
#[derive(Debug, Clone, Copy, PartialEq, Eq, Structural)]
pub enum ConfigError {
    /// The source frame has no height.
    ZeroSourceHeight,
    /// The grid is to have no rows.
    ZeroRenderHeight,
    /// The destination width does not fit in a `u32`.
    FrameTooWide,
    /// The grid has more rows than the destination frame has pixel rows.
    CellTooShort,
    /// The glyph cell has no width.
    ZeroCellWidth,
}

/// `v` rounded down to an even number.
pub open spec fn even_floor(v: int) -> int {
    v - v % 2
}

/// The output frame and the height of one cell of the grid.
#[derive(Debug, Clone, Copy, PartialEq, Eq, Structural)]
pub struct FrameGeometry {
    pub dst_w: u32,
    pub dst_h: u32,
    pub cell_h: u32,
}

/// Works out the output frame for a `src_w` by `src_h` source scaled to
/// `dst_h` rows and drawn as a grid of `render_h` rows: the width keeps the
/// aspect ratio, `dst_h * src_w / src_h` rounded down and then down to an
/// even number; the height is `dst_h` rounded down to an even number; a
/// cell is `height / render_h` pixels tall.
pub fn plan_frame(src_w: u32, src_h: u32, dst_h: u32, render_h: u32) -> (r: Result<FrameGeometry, ConfigError>)
    ensures
        src_h == 0 ==> r == Err::<FrameGeometry, ConfigError>(ConfigError::ZeroSourceHeight),
        src_h != 0 && render_h == 0 ==> r == Err::<FrameGeometry, ConfigError>(ConfigError::ZeroRenderHeight),
        src_h != 0 && render_h != 0 && even_floor((dst_h * src_w) / (src_h as int)) > u32::MAX
            ==> r == Err::<FrameGeometry, ConfigError>(ConfigError::FrameTooWide),
        src_h != 0 && render_h != 0 && even_floor((dst_h * src_w) / (src_h as int)) <= u32::MAX && even_floor(dst_h as int) / render_h as int == 0
            ==> r == Err::<FrameGeometry, ConfigError>(ConfigError::CellTooShort),
        r is Ok <==> (src_h != 0 && render_h != 0 && even_floor((dst_h * src_w) / (src_h as int)) <= u32::MAX
            && even_floor(dst_h as int) / render_h as int > 0),
        r matches Ok(g) ==> {
            &&& g.dst_w == even_floor((dst_h * src_w) / (src_h as int))
            &&& g.dst_h == even_floor(dst_h as int)
            &&& g.cell_h == g.dst_h / render_h
            &&& g.cell_h > 0
            &&& g.cell_h * render_h <= g.dst_h
        },
{
    if src_h == 0 {
        return Err(ConfigError::ZeroSourceHeight);
    }
    if render_h == 0 {
        return Err(ConfigError::ZeroRenderHeight);
    }
    assert(dst_h as u64 * src_w as u64 <= u32::MAX as u64 * u32::MAX as u64) by (nonlinear_arith)
        requires dst_h <= u32::MAX, src_w <= u32::MAX;
    let wide: u64 = dst_h as u64 * src_w as u64 / src_h as u64;
    let w: u64 = wide - wide % 2;
    if w > u32::MAX as u64 {
        return Err(ConfigError::FrameTooWide);
    }
    let h: u32 = dst_h - dst_h % 2;
    let cell_h: u32 = h / render_h;
    if cell_h == 0 {
        return Err(ConfigError::CellTooShort);
    }
    assert(cell_h * render_h <= h) by (nonlinear_arith)
        requires cell_h == h / render_h, render_h > 0;
    Ok(FrameGeometry { dst_w: w as u32, dst_h: h, cell_h })
}

/// The number of grid columns: as many cells `cell_w` wide as fit across
/// `dst_w` pixels.
pub fn grid_columns(dst_w: u32, cell_w: usize) -> (r: Result<u32, ConfigError>)
    ensures
        r is Err <==> cell_w == 0,
        r is Err ==> r == Err::<u32, ConfigError>(ConfigError::ZeroCellWidth),
        r matches Ok(c) ==> c == (dst_w as int) / (cell_w as int) && c * cell_w <= dst_w,
{
    if cell_w == 0 {
        return Err(ConfigError::ZeroCellWidth);
    }
    let c: u64 = dst_w as u64 / cell_w as u64;
    assert(c * cell_w <= dst_w) by (nonlinear_arith)
        requires c == (dst_w as int) / (cell_w as int), cell_w > 0;
    Ok(c as u32)
}

} // verus!
