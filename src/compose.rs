//! Stamping glyphs into a luminance plane, one per cell of a luminance grid.
use vstd::prelude::*;
use crate::atlas::{shaped, GlyphAtlas};
use crate::scan::{lemma_scan_cells_disjoint, RenderData};

verus! {

/// The glyph index chosen for a brightness `sample` (0..=255) from a ramp
/// of `n` glyphs: `floor(sample * n / 256)`, which is always below `n`.
pub open spec fn bucket_of(sample: int, n: int) -> int {
    sample * n / 256
}

/// Offset of pixel `(x, y)` in a plane whose rows are `stride` bytes apart.
pub open spec fn pixel_index(x: int, y: int, stride: int) -> int {
    y * stride + x
}

/// Offset `p` of a plane with row pitch `stride` lies in the `w` by `h`
/// rectangle whose top-left pixel is `(x0, y0)`.
pub open spec fn in_rect(p: int, x0: int, y0: int, w: int, h: int, stride: int) -> bool {
    &&& x0 <= p % stride < x0 + w
    &&& y0 <= p / stride < y0 + h
}

/// The `w` by `h` rectangle of `plane` at `(x0, y0)` holds `glyph`.
pub open spec fn glyph_drawn(plane: Seq<u8>, stride: int, glyph: Seq<Vec<u8>>, x0: int, y0: int, w: int, h: int) -> bool {
    forall|x: int, y: int|
        x0 <= x < x0 + w && y0 <= y < y0 + h ==> #[trigger] plane[pixel_index(x, y, stride)] == glyph[y - y0]@[x - x0]
}

/// The glyph that the grid sample of cell `(r, c)` selects.
pub open spec fn cell_glyph(grid: Seq<u8>, grid_stride: int, atlas: GlyphAtlas, r: int, c: int) -> Seq<Vec<u8>> {
    atlas.glyphs@[bucket_of(grid[r * grid_stride + c] as int, atlas.glyphs@.len() as int)]@
}

/// Cell `(r, c)` of the output plane holds the glyph its sample selects.
pub open spec fn cell_drawn(
    plane: Seq<u8>,
    stride: int,
    grid: Seq<u8>,
    grid_stride: int,
    atlas: GlyphAtlas,
    map: RenderData,
    r: int,
    c: int,
) -> bool {
    glyph_drawn(
        plane,
        stride,
        cell_glyph(grid, grid_stride, atlas, r, c),
        map.x@[c] as int,
        map.y@[r] as int,
        atlas.cell_w as int,
        atlas.cell_h as int,
    )
}

/// Offset `p` lies in the destination rectangle of cell `(r, c)`.
pub open spec fn in_cell(p: int, stride: int, atlas: GlyphAtlas, map: RenderData, r: int, c: int) -> bool {
    in_rect(p, map.x@[c] as int, map.y@[r] as int, atlas.cell_w as int, atlas.cell_h as int, stride)
}

/// Cell `(r, c)` comes before cell `(row, col)` in row-major order.
pub open spec fn cell_before(r: int, c: int, row: int, col: int) -> bool {
    r < row || (r == row && c < col)
}

/// Offset `p` lies in a cell that comes before `(row, col)`.
pub open spec fn in_cells_before(p: int, stride: int, atlas: GlyphAtlas, map: RenderData, row: int, col: int) -> bool {
    exists|r: int, c: int|
        0 <= r < map.r_h && 0 <= c < map.r_w && cell_before(r, c, row, col) && #[trigger] in_cell(p, stride, atlas, map, r, c)
}

/// Offset `p` lies in some cell of the grid.
pub open spec fn in_some_cell(p: int, stride: int, atlas: GlyphAtlas, map: RenderData) -> bool {
    in_cells_before(p, stride, atlas, map, map.r_h as int, 0)
}

/// `new` is `old` with every cell of the grid stamped with its glyph and
/// every byte outside the cells left as it was.
pub open spec fn composited(
    old: Seq<u8>,
    new: Seq<u8>,
    stride: int,
    grid: Seq<u8>,
    grid_stride: int,
    atlas: GlyphAtlas,
    map: RenderData,
) -> bool {
    &&& new.len() == old.len()
    &&& forall|r: int, c: int|
        0 <= r < map.r_h && 0 <= c < map.r_w ==> #[trigger] cell_drawn(new, stride, grid, grid_stride, atlas, map, r, c)
    &&& forall|p: int|
        0 <= p < old.len() && !in_some_cell(p, stride, atlas, map) ==> #[trigger] new[p] == old[p]
}

/// Chooses the glyph for a brightness sample from a ramp of `n` glyphs.
pub fn bucket(sample: u8, n: usize) -> (b: usize)
    requires
        n > 0,
    ensures
        b == bucket_of(sample as int, n as int),
        b < n,
{
    assert(sample as u128 * n as u128 <= 255 * (usize::MAX as u128)) by (nonlinear_arith)
        requires sample <= 255, n <= usize::MAX;
    let wide: u128 = sample as u128 * n as u128;
    proof {
        lemma_bucket_below(sample as int, n as int);
    }
    (wide / 256) as usize
}

proof fn lemma_bucket_below(sample: int, n: int)
    requires
        0 <= sample < 256,
        0 < n,
    ensures
        0 <= bucket_of(sample, n) < n,
{
    assert(0 <= sample * n < 256 * n) by (nonlinear_arith)
        requires 0 <= sample < 256, 0 < n;
}

proof fn lemma_pixel_index_split(x: int, y: int, stride: int)
    requires
        0 <= x < stride,
        0 <= y,
    ensures
        pixel_index(x, y, stride) / stride == y,
        pixel_index(x, y, stride) % stride == x,
{
    vstd::arithmetic::div_mod::lemma_fundamental_div_mod_converse(pixel_index(x, y, stride), stride, y, x);
}

proof fn lemma_pixel_index_rows(x: int, y: int, x2: int, y2: int, stride: int)
    requires
        0 <= x < stride,
        0 <= x2 < stride,
        0 <= y < y2,
    ensures
        pixel_index(x, y, stride) < pixel_index(x2, y2, stride),
{
    assert(y * stride + stride <= y2 * stride) by (nonlinear_arith)
        requires y < y2, 0 < stride;
}

proof fn lemma_pixel_index_in_plane(x: int, y: int, stride: int, h: int)
    requires
        0 <= x <= stride,
        0 <= y < h,
    ensures
        0 <= pixel_index(x, y, stride) <= h * stride,
        x < stride ==> pixel_index(x, y, stride) < h * stride,
{
    assert(0 <= y * stride && y * stride + stride <= h * stride) by (nonlinear_arith)
        requires 0 <= y < h, 0 <= stride;
}

/// Copies a `w` by `h` glyph into `plane` with its top-left pixel at
/// `(x0, y0)`; nothing outside that rectangle changes.
fn stamp_cell(plane: &mut Vec<u8>, stride: usize, glyph: &Vec<Vec<u8>>, x0: usize, y0: usize, w: usize, h: usize)
    requires
        shaped(glyph@, w as int, h as int),
        0 < stride,
        x0 + w <= stride,
        (y0 + h) * stride <= old(plane)@.len(),
    ensures
        final(plane)@.len() == old(plane)@.len(),
        glyph_drawn(final(plane)@, stride as int, glyph@, x0 as int, y0 as int, w as int, h as int),
        forall|p: int|
            0 <= p < old(plane)@.len() && !in_rect(p, x0 as int, y0 as int, w as int, h as int, stride as int)
                ==> #[trigger] final(plane)@[p] == old(plane)@[p],
{
    let mut dy: usize = 0;
    while dy < h
        invariant
            dy <= h,
            shaped(glyph@, w as int, h as int),
            0 < stride,
            x0 + w <= stride,
            (y0 + h) * stride <= old(plane)@.len(),
            plane@.len() == old(plane)@.len(),
            glyph_drawn(plane@, stride as int, glyph@, x0 as int, y0 as int, w as int, dy as int),
            forall|p: int|
                0 <= p < old(plane)@.len() && !in_rect(p, x0 as int, y0 as int, w as int, dy as int, stride as int)
                    ==> #[trigger] plane@[p] == old(plane)@[p],
        decreases h - dy,
    {
        let line = &glyph[dy];
        let n: usize = plane.len();
        assert((y0 + h) <= (y0 + h) * stride) by (nonlinear_arith)
            requires 0 < stride, 0 <= y0 + h;
        let y: usize = y0 + dy;
        proof {
            lemma_pixel_index_in_plane(x0 as int, y as int, stride as int, (y0 + h) as int);
        }
        let base: usize = y * stride + x0;
        let mut dx: usize = 0;
        while dx < w
            invariant
                dy < h,
                dx <= w,
                y == y0 + dy,
                base == pixel_index(x0 as int, y as int, stride as int),
                line@ == glyph@[dy as int]@,
                line@.len() == w,
                n == plane@.len(),
                0 < stride,
                x0 + w <= stride,
                (y0 + h) * stride <= old(plane)@.len(),
                plane@.len() == old(plane)@.len(),
                glyph_drawn(plane@, stride as int, glyph@, x0 as int, y0 as int, w as int, dy as int),
                forall|x: int|
                    x0 <= x < x0 + dx ==> #[trigger] plane@[pixel_index(x, y as int, stride as int)] == line@[x - x0],
                forall|p: int|
                    0 <= p < old(plane)@.len() && !in_rect(p, x0 as int, y0 as int, w as int, dy as int, stride as int)
                        && !in_rect(p, x0 as int, y as int, dx as int, 1, stride as int)
                        ==> #[trigger] plane@[p] == old(plane)@[p],
            decreases w - dx,
        {
            let ghost i = pixel_index((x0 + dx) as int, y as int, stride as int);
            let ghost before = plane@;
            proof {
                lemma_pixel_index_in_plane((x0 + dx) as int, y as int, stride as int, (y0 + h) as int);
                lemma_pixel_index_split((x0 + dx) as int, y as int, stride as int);
            }
            plane.set(base + dx, line[dx]);
            proof {
                assert forall|xx: int, yy: int|
                    x0 <= xx < x0 + w && y0 <= yy < y0 + dy implies #[trigger] plane@[pixel_index(xx, yy, stride as int)]
                        == glyph@[yy - y0]@[xx - x0] by {
                    lemma_pixel_index_rows(xx, yy, (x0 + dx) as int, y as int, stride as int);
                    assert(before[pixel_index(xx, yy, stride as int)] == glyph@[yy - y0]@[xx - x0]);
                }
            }
            dx = dx + 1;
        }
        proof {
            assert forall|xx: int, yy: int|
                x0 <= xx < x0 + w && y0 <= yy < y0 + dy + 1 implies #[trigger] plane@[pixel_index(xx, yy, stride as int)]
                    == glyph@[yy - y0]@[xx - x0] by {
                if yy == y {
                    assert(plane@[pixel_index(xx, y as int, stride as int)] == line@[xx - x0]);
                }
            }
        }
        dy = dy + 1;
    }
}

/// The pixels of cell `(r, c)` lie in the frame and outside the rectangle
/// of every cell `(row, col)` that comes after it.
proof fn lemma_cell_apart(stride: int, atlas: GlyphAtlas, map: RenderData, r: int, c: int, row: int, col: int, x: int, y: int)
    requires
        map.wf(),
        0 < stride,
        map.dst_w <= stride,
        atlas.cell_w * map.r_w <= map.dst_w,
        atlas.cell_h * map.r_h <= map.dst_h,
        0 <= r < map.r_h,
        0 <= c < map.r_w,
        map.x@[c] <= x < map.x@[c] + atlas.cell_w,
        map.y@[r] <= y < map.y@[r] + atlas.cell_h,
    ensures
        0 <= pixel_index(x, y, stride) < map.dst_h * stride,
        pixel_index(x, y, stride) / stride == y,
        pixel_index(x, y, stride) % stride == x,
        0 <= row < map.r_h && 0 <= col < map.r_w && cell_before(r, c, row, col)
            ==> !in_cell(pixel_index(x, y, stride), stride, atlas, map, row, col),
{
    lemma_scan_cells_disjoint(c, map.r_w as int, atlas.cell_w as int, map.dst_w as int, map.r_w as int);
    lemma_scan_cells_disjoint(r, map.r_h as int, atlas.cell_h as int, map.dst_h as int, map.r_h as int);
    vstd::arithmetic::div_mod::lemma_div_multiples_vanish(map.dst_w as int, map.r_w as int);
    vstd::arithmetic::div_mod::lemma_div_multiples_vanish(map.dst_h as int, map.r_h as int);
    lemma_pixel_index_in_plane(x, y, stride, map.dst_h as int);
    lemma_pixel_index_split(x, y, stride);
    if 0 <= row < map.r_h && 0 <= col < map.r_w && cell_before(r, c, row, col) {
        if r < row {
            lemma_scan_cells_disjoint(r, row, atlas.cell_h as int, map.dst_h as int, map.r_h as int);
        } else {
            lemma_scan_cells_disjoint(c, col, atlas.cell_w as int, map.dst_w as int, map.r_w as int);
        }
    }
}

/// Stamps one glyph per grid cell into the luminance plane `plane`, whose
/// rows are `stride` bytes apart. The sample of cell `(r, c)` is
/// `grid[r * grid_stride + c]`; it selects glyph `bucket_of(sample, n)` of the
/// `n` glyphs of `atlas`, which is copied with its top-left pixel at
/// `(map.x[c], map.y[r])`. Bytes outside every cell keep their value.
pub fn composite(
    grid: &Vec<u8>,
    grid_stride: usize,
    atlas: &GlyphAtlas,
    map: &RenderData,
    plane: &mut Vec<u8>,
    stride: usize,
)
    requires
        atlas.wf(),
        map.wf(),
        map.r_w <= grid_stride,
        map.r_h * grid_stride <= grid@.len(),
        atlas.cell_w * map.r_w <= map.dst_w,
        atlas.cell_h * map.r_h <= map.dst_h,
        0 < stride,
        map.dst_w <= stride,
        map.dst_h * stride <= old(plane)@.len(),
    ensures
        composited(old(plane)@, final(plane)@, stride as int, grid@, grid_stride as int, *atlas, *map),
{
    let ghost st = stride as int;
    let ghost gs = grid_stride as int;
    let n: usize = atlas.glyph_count();
    let grid_len: usize = grid.len();
    let mut row: usize = 0;
    while row < map.r_h
        invariant
            atlas.wf(),
            map.wf(),
            st == stride,
            gs == grid_stride,
            grid_len == grid@.len(),
            n == atlas.glyphs@.len(),
            map.r_w <= grid_stride,
            map.r_h * grid_stride <= grid@.len(),
            atlas.cell_w * map.r_w <= map.dst_w,
            atlas.cell_h * map.r_h <= map.dst_h,
            0 < stride,
            map.dst_w <= stride,
            map.dst_h * stride <= old(plane)@.len(),
            row <= map.r_h,
            plane@.len() == old(plane)@.len(),
            forall|r: int, c: int|
                0 <= r < map.r_h && 0 <= c < map.r_w && cell_before(r, c, row as int, 0)
                    ==> #[trigger] cell_drawn(plane@, st, grid@, gs, *atlas, *map, r, c),
            forall|p: int|
                0 <= p < old(plane)@.len() && !in_cells_before(p, st, *atlas, *map, row as int, 0)
                    ==> #[trigger] plane@[p] == old(plane)@[p],
        decreases map.r_h - row,
    {
        let mut col: usize = 0;
        while col < map.r_w
            invariant
                atlas.wf(),
                map.wf(),
                st == stride,
                gs == grid_stride,
                grid_len == grid@.len(),
                n == atlas.glyphs@.len(),
                map.r_w <= grid_stride,
                map.r_h * grid_stride <= grid@.len(),
                atlas.cell_w * map.r_w <= map.dst_w,
                atlas.cell_h * map.r_h <= map.dst_h,
                0 < stride,
                map.dst_w <= stride,
                map.dst_h * stride <= old(plane)@.len(),
                row < map.r_h,
                col <= map.r_w,
                plane@.len() == old(plane)@.len(),
                forall|r: int, c: int|
                    0 <= r < map.r_h && 0 <= c < map.r_w && cell_before(r, c, row as int, col as int)
                        ==> #[trigger] cell_drawn(plane@, st, grid@, gs, *atlas, *map, r, c),
                forall|p: int|
                    0 <= p < old(plane)@.len() && !in_cells_before(p, st, *atlas, *map, row as int, col as int)
                        ==> #[trigger] plane@[p] == old(plane)@[p],
            decreases map.r_w - col,
        {
            assert(row * grid_stride + col < map.r_h * grid_stride) by (nonlinear_arith)
                requires row < map.r_h, col < map.r_w, map.r_w <= grid_stride;
            let sample: u8 = grid[row * grid_stride + col];
            let g: usize = bucket(sample, n);
            let x0: usize = map.x[col];
            let y0: usize = map.y[row];
            proof {
                lemma_scan_cells_disjoint(col as int, map.r_w as int, atlas.cell_w as int, map.dst_w as int, map.r_w as int);
                lemma_scan_cells_disjoint(row as int, map.r_h as int, atlas.cell_h as int, map.dst_h as int, map.r_h as int);
                vstd::arithmetic::div_mod::lemma_div_multiples_vanish(map.dst_w as int, map.r_w as int);
                vstd::arithmetic::div_mod::lemma_div_multiples_vanish(map.dst_h as int, map.r_h as int);
                assert((y0 + atlas.cell_h) * stride <= map.dst_h * stride) by (nonlinear_arith)
                    requires y0 + atlas.cell_h <= map.dst_h, 0 < stride;
                assert(shaped(atlas.glyphs@[g as int]@, atlas.cell_w as int, atlas.cell_h as int));
            }
            let ghost mid = plane@;
            stamp_cell(plane, stride, &atlas.glyphs[g], x0, y0, atlas.cell_w, atlas.cell_h);
            proof {
                assert(cell_glyph(grid@, gs, *atlas, row as int, col as int) == atlas.glyphs@[g as int]@);
                assert(cell_drawn(plane@, st, grid@, gs, *atlas, *map, row as int, col as int));
                assert forall|r: int, c: int|
                    0 <= r < map.r_h && 0 <= c < map.r_w && cell_before(r, c, row as int, col + 1)
                        implies #[trigger] cell_drawn(plane@, st, grid@, gs, *atlas, *map, r, c) by {
                    if r != row || c != col {
                        assert(cell_drawn(mid, st, grid@, gs, *atlas, *map, r, c));
                        assert forall|x: int, y: int|
                            map.x@[c] <= x < map.x@[c] + atlas.cell_w && map.y@[r] <= y < map.y@[r] + atlas.cell_h
                                implies #[trigger] plane@[pixel_index(x, y, st)]
                                    == cell_glyph(grid@, gs, *atlas, r, c)[y - map.y@[r]]@[x - map.x@[c]] by {
                            lemma_cell_apart(st, *atlas, *map, r, c, row as int, col as int, x, y);
                            assert(mid[pixel_index(x, y, st)] == cell_glyph(grid@, gs, *atlas, r, c)[y - map.y@[r]]@[x - map.x@[c]]);
                        }
                    }
                }
                assert forall|p: int|
                    0 <= p < old(plane)@.len() && !in_cells_before(p, st, *atlas, *map, row as int, col + 1)
                        implies #[trigger] plane@[p] == old(plane)@[p] by {
                    if in_cells_before(p, st, *atlas, *map, row as int, col as int) {
                        let (r, c) = choose|r: int, c: int|
                            0 <= r < map.r_h && 0 <= c < map.r_w && cell_before(r, c, row as int, col as int)
                                && #[trigger] in_cell(p, st, *atlas, *map, r, c);
                        assert(cell_before(r, c, row as int, col + 1));
                    }
                    if in_cell(p, st, *atlas, *map, row as int, col as int) {
                        assert(cell_before(row as int, col as int, row as int, col + 1));
                    }
                    assert(mid[p] == old(plane)@[p]);
                }
            }
            col = col + 1;
        }
        proof {
            assert forall|p: int|
                0 <= p < old(plane)@.len() && !in_cells_before(p, st, *atlas, *map, row + 1, 0)
                    implies #[trigger] plane@[p] == old(plane)@[p] by {
                if in_cells_before(p, st, *atlas, *map, row as int, map.r_w as int) {
                    let (r, c) = choose|r: int, c: int|
                        0 <= r < map.r_h && 0 <= c < map.r_w && cell_before(r, c, row as int, map.r_w as int)
                            && #[trigger] in_cell(p, st, *atlas, *map, r, c);
                    assert(cell_before(r, c, row + 1, 0));
                }
            }
        }
        row = row + 1;
    }
}

/// A brighter sample never selects a dimmer glyph: for samples
/// `b1 <= b2`, the glyph chosen for `b2` is at or after the one chosen for
/// `b1`, so a uniform grid of `b2` is drawn with a glyph no lower in the ramp
/// than a uniform grid of `b1`.
pub proof fn lemma_bucket_monotone(b1: u8, b2: u8, n: usize)
    requires
        b1 <= b2,
        n > 0,
    ensures
        bucket_of(b1 as int, n as int) <= bucket_of(b2 as int, n as int),
{
    assert(b1 * n <= b2 * n) by (nonlinear_arith)
        requires b1 <= b2, n > 0;
    vstd::arithmetic::div_mod::lemma_div_is_ordered(b1 * n, b2 * n, 256);
}

/// Compositing is deterministic: compositing one grid into two copies of
/// the same template yields byte-identical planes.
pub proof fn lemma_composite_deterministic(
    template: Seq<u8>,
    a: Seq<u8>,
    b: Seq<u8>,
    stride: int,
    grid: Seq<u8>,
    grid_stride: int,
    atlas: GlyphAtlas,
    map: RenderData,
)
    requires
        atlas.wf(),
        map.wf(),
        0 < stride,
        map.dst_w <= stride,
        atlas.cell_w * map.r_w <= map.dst_w,
        atlas.cell_h * map.r_h <= map.dst_h,
        composited(template, a, stride, grid, grid_stride, atlas, map),
        composited(template, b, stride, grid, grid_stride, atlas, map),
    ensures
        a == b,
{
    assert forall|p: int| 0 <= p < a.len() implies a[p] == b[p] by {
        if in_some_cell(p, stride, atlas, map) {
            let (r, c) = choose|r: int, c: int|
                0 <= r < map.r_h && 0 <= c < map.r_w && cell_before(r, c, map.r_h as int, 0)
                    && #[trigger] in_cell(p, stride, atlas, map, r, c);
            vstd::arithmetic::div_mod::lemma_fundamental_div_mod(p, stride);
            let x = p % stride;
            let y = p / stride;
            assert(p == pixel_index(x, y, stride)) by (nonlinear_arith)
                requires p == stride * (p / stride) + p % stride, x == p % stride, y == p / stride;
            assert(cell_drawn(a, stride, grid, grid_stride, atlas, map, r, c));
            assert(cell_drawn(b, stride, grid, grid_stride, atlas, map, r, c));
            assert(a[pixel_index(x, y, stride)] == b[pixel_index(x, y, stride)]);
        }
    }
    assert(a =~= b);
}

} // verus!
