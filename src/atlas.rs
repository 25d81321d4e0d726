//! Glyph atlases: one fixed-size coverage bitmap per character of a ramp.
use vstd::prelude::*;

verus! {

/// Why a glyph atlas could not be built.
#[derive(Debug, Clone, Copy, PartialEq, Eq, Structural)]
pub enum FontError {
    /// No character of the ramp has any ink.
    EmptyCharacterSet,
    /// The font size did not settle within the cell height in the allowed
    /// number of corrections.
    FontFitDidNotConverge,
}

/// `rows` is a bitmap of `h` rows of `w` bytes each.
pub open spec fn shaped(rows: Seq<Vec<u8>>, w: int, h: int) -> bool {
    &&& rows.len() == h
    &&& forall|dy: int| 0 <= dy < h ==> #[trigger] rows[dy]@.len() == w
}

/// One bitmap per character of a ramp, dim to bright, all `cell_w` by
/// `cell_h`; each byte is 0 (no ink) or 255 (ink).
pub struct GlyphAtlas {
    pub cell_w: usize,
    pub cell_h: usize,
    pub glyphs: Vec<Vec<Vec<u8>>>,
}

impl GlyphAtlas {
    /// The atlas is non-empty and every glyph has the cell's shape.
    pub open spec fn wf(&self) -> bool {
        &&& self.glyphs@.len() > 0
        &&& forall|g: int|
            0 <= g < self.glyphs@.len() ==> shaped(#[trigger] self.glyphs@[g]@, self.cell_w as int, self.cell_h as int)
    }

    /// Number of glyphs in the ramp.
    pub fn glyph_count(&self) -> (n: usize)
        ensures
            n == self.glyphs@.len(),
    {
        self.glyphs.len()
    }
}

/// Where a rasterised glyph has ink: `rows[y][x]` holds whether the
/// coverage at `(x, y)` exceeds the ink threshold. A character with no
/// outline has no rows.
pub struct InkMask {
    pub width: usize,
    pub rows: Vec<Vec<bool>>,
}

/// A rectangle of a mask: columns `left..right`, rows `top..bottom`.
#[derive(Debug, Clone, Copy, PartialEq, Eq, Structural)]
pub struct InkBox {
    pub left: usize,
    pub top: usize,
    pub right: usize,
    pub bottom: usize,
}

impl InkBox {
    pub open spec fn width(&self) -> int {
        self.right - self.left
    }

    pub open spec fn height(&self) -> int {
        self.bottom - self.top
    }
}

impl InkMask {
    /// Every row is `width` long.
    pub open spec fn wf(&self) -> bool {
        forall|y: int| 0 <= y < self.rows@.len() ==> #[trigger] self.rows@[y]@.len() == self.width
    }

    /// The sample at `(x, y)` lies in the mask and has ink.
    pub open spec fn ink(&self, x: int, y: int) -> bool {
        &&& 0 <= y < self.rows@.len()
        &&& 0 <= x < self.width
        &&& self.rows@[y]@[x]
    }

    /// Some sample has ink.
    pub open spec fn has_ink(&self) -> bool {
        exists|x: int, y: int| #[trigger] self.ink(x, y)
    }

    /// `b` is the tightest box around the ink: it holds every inked sample
    /// and each of its four edges touches one.
    pub open spec fn is_ink_box(&self, b: InkBox) -> bool {
        &&& b.left < b.right <= self.width
        &&& b.top < b.bottom <= self.rows@.len()
        &&& forall|x: int, y: int| #[trigger] self.ink(x, y) ==> b.left <= x < b.right && b.top <= y < b.bottom
        &&& exists|x: int| #[trigger] self.ink(x, b.top as int)
        &&& exists|x: int| #[trigger] self.ink(x, b.bottom - 1)
        &&& exists|y: int| #[trigger] self.ink(b.left as int, y)
        &&& exists|y: int| #[trigger] self.ink(b.right - 1, y)
    }

    /// The ink box, if the mask has ink.
    pub open spec fn ink_box_of(&self) -> Option<InkBox> {
        if self.has_ink() {
            Some(choose|b: InkBox| self.is_ink_box(b))
        } else {
            None
        }
    }

    /// Width of the ink box; 0 without ink.
    pub open spec fn ink_width(&self) -> int {
        match self.ink_box_of() {
            Some(b) => b.width(),
            None => 0,
        }
    }

    /// Height of the ink box; 0 without ink.
    pub open spec fn ink_height(&self) -> int {
        match self.ink_box_of() {
            Some(b) => b.height(),
            None => 0,
        }
    }

    /// A mask has at most one ink box.
    pub proof fn lemma_ink_box_unique(&self, b1: InkBox, b2: InkBox)
        requires
            self.is_ink_box(b1),
            self.is_ink_box(b2),
        ensures
            b1 == b2,
    {
        let x1 = choose|x: int| #[trigger] self.ink(x, b1.top as int);
        let x2 = choose|x: int| #[trigger] self.ink(x, b2.top as int);
        let x3 = choose|x: int| #[trigger] self.ink(x, b1.bottom - 1);
        let x4 = choose|x: int| #[trigger] self.ink(x, b2.bottom - 1);
        let y1 = choose|y: int| #[trigger] self.ink(b1.left as int, y);
        let y2 = choose|y: int| #[trigger] self.ink(b2.left as int, y);
        let y3 = choose|y: int| #[trigger] self.ink(b1.right - 1, y);
        let y4 = choose|y: int| #[trigger] self.ink(b2.right - 1, y);
    }

    /// Finds the tightest box around the ink, or `None` when the mask has
    /// no ink.
    pub fn ink_box(&self) -> (r: Option<InkBox>)
        requires
            self.wf(),
        ensures
            r == self.ink_box_of(),
            r matches Some(b) ==> self.is_ink_box(b),
    {
        let h: usize = self.rows.len();
        let mut found = false;
        let mut left: usize = 0;
        let mut top: usize = 0;
        let mut right: usize = 0;
        let mut bottom: usize = 0;
        let mut y: usize = 0;
        while y < h
            invariant
                self.wf(),
                h == self.rows@.len(),
                y <= h,
                found <==> exists|xx: int, yy: int| yy < y && #[trigger] self.ink(xx, yy),
                found ==> self.is_box_of_rows(InkBox { left, top, right, bottom }, y as int),
            decreases h - y,
        {
            let line = &self.rows[y];
            let mut x: usize = 0;
            while x < self.width
                invariant
                    self.wf(),
                    h == self.rows@.len(),
                    y < h,
                    line@ == self.rows@[y as int]@,
                    x <= self.width,
                    found <==> exists|xx: int, yy: int|
                        (yy < y || (yy == y && xx < x)) && #[trigger] self.ink(xx, yy),
                    found ==> self.is_box_of_prefix(InkBox { left, top, right, bottom }, x as int, y as int),
                decreases self.width - x,
            {
                let ghost b0 = InkBox { left, top, right, bottom };
                if line[x] {
                    assert(self.ink(x as int, y as int));
                    if !found {
                        found = true;
                        left = x;
                        right = x + 1;
                        top = y;
                        bottom = y + 1;
                        proof {
                            assert(self.ink(x as int, bottom - 1));
                            assert(self.ink(right - 1, y as int));
                            assert forall|xx: int, yy: int|
                                (yy < y || (yy == y && xx < x + 1)) && #[trigger] self.ink(xx, yy)
                                    implies left <= xx < right && top <= yy < bottom by {
                                if yy < y || (yy == y && xx < x) {
                                    assert(exists|xx: int, yy: int| (yy < y || (yy == y && xx < x)) && #[trigger] self.ink(xx, yy));
                                }
                            }
                        }
                    } else {
                        if x < left {
                            left = x;
                        }
                        if x + 1 > right {
                            right = x + 1;
                        }
                        bottom = y + 1;
                        proof {
                            let wt = choose|xx: int| #[trigger] self.ink(xx, b0.top as int);
                            assert(self.ink(wt, top as int));
                            if left != b0.left {
                                assert(self.ink(left as int, y as int));
                            } else {
                                let wl = choose|yy: int| #[trigger] self.ink(b0.left as int, yy);
                                assert(self.ink(left as int, wl));
                            }
                            if right != b0.right {
                                assert(self.ink(right - 1, y as int));
                            } else {
                                let wr = choose|yy: int| #[trigger] self.ink(b0.right - 1, yy);
                                assert(self.ink(right - 1, wr));
                            }
                            assert(self.ink(x as int, bottom - 1));
                        }
                    }
                } else {
                    assert(!self.ink(x as int, y as int));
                }
                proof {
                    if found {
                        let b = InkBox { left, top, right, bottom };
                        assert(b.left < b.right <= self.width);
                        assert(b.top < b.bottom <= self.rows@.len());
                        assert(forall|xx: int, yy: int|
                            (yy < y || (yy == y && xx < x + 1)) && #[trigger] self.ink(xx, yy)
                                ==> b.left <= xx < b.right && b.top <= yy < b.bottom);
                        assert(exists|xx: int| #[trigger] self.ink(xx, b.top as int));
                        assert(exists|xx: int| #[trigger] self.ink(xx, b.bottom - 1));
                        assert(exists|yy: int| #[trigger] self.ink(b.left as int, yy));
                        assert(exists|yy: int| #[trigger] self.ink(b.right - 1, yy));
                    }
                }
                x = x + 1;
            }
            y = y + 1;
        }
        if found {
            let b = InkBox { left, top, right, bottom };
            proof {
                assert(self.has_ink());
                assert forall|xx: int, yy: int| #[trigger] self.ink(xx, yy) implies b.left <= xx < b.right && b.top <= yy < b.bottom by {
                    assert(yy < h);
                }
                assert(self.is_ink_box(b));
                self.lemma_ink_box_unique(b, choose|c: InkBox| self.is_ink_box(c));
            }
            Some(b)
        } else {
            proof {
                assert forall|xx: int, yy: int| !#[trigger] self.ink(xx, yy) by {
                    if self.ink(xx, yy) {
                        assert(yy < h);
                    }
                }
            }
            None
        }
    }

    /// `b` bounds the ink of rows `0..y`, and each of its edges touches ink
    /// there.
    pub open spec fn is_box_of_rows(&self, b: InkBox, y: int) -> bool {
        self.is_box_of_prefix(b, 0, y)
    }

    /// `b` bounds the ink of the samples before `(x, y)` in row-major order,
    /// and each of its edges touches ink there.
    pub open spec fn is_box_of_prefix(&self, b: InkBox, x: int, y: int) -> bool {
        &&& b.left < b.right <= self.width
        &&& b.top < b.bottom <= self.rows@.len()
        &&& forall|xx: int, yy: int|
            (yy < y || (yy == y && xx < x)) && #[trigger] self.ink(xx, yy)
                ==> b.left <= xx < b.right && b.top <= yy < b.bottom
        &&& exists|xx: int| #[trigger] self.ink(xx, b.top as int)
        &&& exists|xx: int| #[trigger] self.ink(xx, b.bottom - 1)
        &&& exists|yy: int| #[trigger] self.ink(b.left as int, yy)
        &&& exists|yy: int| #[trigger] self.ink(b.right - 1, yy)
        &&& b.bottom - 1 <= y
    }
}

/// Every mask of a ramp is well formed.
pub open spec fn masks_wf(ms: Seq<InkMask>) -> bool {
    forall|i: int| 0 <= i < ms.len() ==> (#[trigger] ms[i]).wf()
}

/// The widest ink box of a ramp; 0 when no mask has ink.
pub open spec fn max_ink_width(ms: Seq<InkMask>) -> int
    decreases ms.len(),
{
    if ms.len() == 0 {
        0
    } else {
        let rest = max_ink_width(ms.drop_last());
        let w = ms.last().ink_width();
        if w > rest {
            w
        } else {
            rest
        }
    }
}

/// The tallest ink box of a ramp; 0 when no mask has ink.
pub open spec fn max_ink_height(ms: Seq<InkMask>) -> int
    decreases ms.len(),
{
    if ms.len() == 0 {
        0
    } else {
        let rest = max_ink_height(ms.drop_last());
        let h = ms.last().ink_height();
        if h > rest {
            h
        } else {
            rest
        }
    }
}

/// Every ink box of a ramp fits within the widest and the tallest.
pub proof fn lemma_max_ink_bounds(ms: Seq<InkMask>, i: int)
    requires
        0 <= i < ms.len(),
    ensures
        0 <= ms[i].ink_width() <= max_ink_width(ms),
        0 <= ms[i].ink_height() <= max_ink_height(ms),
    decreases ms.len(),
{
    lemma_ink_extent_nonneg(ms[i]);
    if i < ms.len() - 1 {
        lemma_max_ink_bounds(ms.drop_last(), i);
        assert(ms.drop_last()[i] == ms[i]);
    }
}

proof fn lemma_ink_extent_nonneg(m: InkMask)
    ensures
        0 <= m.ink_width(),
        0 <= m.ink_height(),
{
    if m.has_ink() {
        let b = choose|b: InkBox| m.is_ink_box(b);
        if !m.is_ink_box(b) {
            let (x, y) = choose|x: int, y: int| #[trigger] m.ink(x, y);
            lemma_ink_box_exists(m, x, y);
        }
    }
}

/// A property that holds at `k >= 0` holds at a least such point.
proof fn lemma_least(p: spec_fn(int) -> bool, k: int) -> (t: int)
    requires
        0 <= k,
        p(k),
    ensures
        0 <= t <= k,
        p(t),
        forall|u: int| 0 <= u < t ==> !#[trigger] p(u),
    decreases k,
{
    if exists|u: int| 0 <= u < k && #[trigger] p(u) {
        let u = choose|u: int| 0 <= u < k && #[trigger] p(u);
        lemma_least(p, u)
    } else {
        k
    }
}

/// A property that holds at `k < n` holds at a greatest such point below `n`.
proof fn lemma_greatest(p: spec_fn(int) -> bool, k: int, n: int) -> (t: int)
    requires
        k < n,
        p(k),
    ensures
        k <= t < n,
        p(t),
        forall|u: int| t < u < n ==> !#[trigger] p(u),
    decreases n - k,
{
    if exists|u: int| k < u < n && #[trigger] p(u) {
        let u = choose|u: int| k < u < n && #[trigger] p(u);
        lemma_greatest(p, u, n)
    } else {
        k
    }
}

/// A mask with ink has an ink box.
proof fn lemma_ink_box_exists(m: InkMask, x: int, y: int)
    requires
        m.ink(x, y),
    ensures
        exists|b: InkBox| m.is_ink_box(b),
{
    let row = |yy: int| exists|xx: int| #[trigger] m.ink(xx, yy);
    let col = |xx: int| exists|yy: int| #[trigger] m.ink(xx, yy);
    assert(row(y));
    assert(col(x));
    assert(m.rows.len() == m.rows@.len());
    let top = lemma_least(row, y);
    let last = lemma_greatest(row, y, m.rows@.len() as int);
    let left = lemma_least(col, x);
    let rlast = lemma_greatest(col, x, m.width as int);
    let b = InkBox { left: left as usize, top: top as usize, right: (rlast + 1) as usize, bottom: (last + 1) as usize };
    assert forall|xx: int, yy: int| #[trigger] m.ink(xx, yy) implies b.left <= xx < b.right && b.top <= yy < b.bottom by {
        assert(row(yy));
        assert(col(xx));
    }
    assert(row(top) && row(last) && col(left) && col(rlast));
    assert(b.top as int == top && b.bottom - 1 == last && b.left as int == left && b.right - 1 == rlast);
    assert(m.is_ink_box(b));
}

/// The offset that centres `ink` pixels in `cell` pixels, rounded down.
pub open spec fn pad(cell: int, ink: int) -> int {
    (cell - ink) / 2
}

/// Value of pixel `(x, y)` of the `cell_w` by `cell_h` glyph made from mask
/// `m`: its ink box is centred in the cell (the spare width and height
/// halved, rounded down, before it), inked samples become 255, all else 0.
pub open spec fn centred_px(m: InkMask, cell_w: int, cell_h: int, x: int, y: int) -> u8 {
    match m.ink_box_of() {
        None => 0,
        Some(b) => {
            let px = pad(cell_w, b.width());
            let py = pad(cell_h, b.height());
            if px <= x < px + b.width() && py <= y < py + b.height() && m.ink(b.left + x - px, b.top + y - py) {
                255
            } else {
                0
            }
        },
    }
}

/// `rows` is the `cell_w` by `cell_h` glyph made from mask `m`.
pub open spec fn is_centred_glyph(rows: Seq<Vec<u8>>, m: InkMask, cell_w: int, cell_h: int) -> bool {
    &&& shaped(rows, cell_w, cell_h)
    &&& forall|x: int, y: int|
        0 <= x < cell_w && 0 <= y < cell_h ==> #[trigger] rows[y]@[x] == centred_px(m, cell_w, cell_h, x, y)
}

/// Measures a ramp: the width of its widest ink box and the height of its
/// tallest.
pub fn ink_extent(masks: &Vec<InkMask>) -> (r: (usize, usize))
    requires
        masks_wf(masks@),
    ensures
        r.0 == max_ink_width(masks@),
        r.1 == max_ink_height(masks@),
{
    let mut w: usize = 0;
    let mut h: usize = 0;
    let mut i: usize = 0;
    while i < masks.len()
        invariant
            masks_wf(masks@),
            i <= masks@.len(),
            w == max_ink_width(masks@.take(i as int)),
            h == max_ink_height(masks@.take(i as int)),
        decreases masks@.len() - i,
    {
        let m = &masks[i];
        assert(m.wf());
        match m.ink_box() {
            Some(b) => {
                let bw: usize = b.right - b.left;
                let bh: usize = b.bottom - b.top;
                if bw > w {
                    w = bw;
                }
                if bh > h {
                    h = bh;
                }
            },
            None => {},
        }
        proof {
            assert(masks@.take(i + 1).drop_last() =~= masks@.take(i as int));
            assert(masks@.take(i + 1).last() == masks@[i as int]);
        }
        i = i + 1;
    }
    proof {
        assert(masks@.take(masks@.len() as int) =~= masks@);
    }
    (w, h)
}

/// Makes the `cell_w` by `cell_h` glyph of mask `m`: the ink box centred
/// in the cell, ink as 255 and everything else 0.
fn centre_glyph(m: &InkMask, cell_w: usize, cell_h: usize) -> (rows: Vec<Vec<u8>>)
    requires
        m.wf(),
        m.ink_width() <= cell_w,
        m.ink_height() <= cell_h,
    ensures
        is_centred_glyph(rows@, *m, cell_w as int, cell_h as int),
{
    let bx = m.ink_box();
    let mut rows: Vec<Vec<u8>> = Vec::new();
    let mut y: usize = 0;
    while y < cell_h
        invariant
            m.wf(),
            bx == m.ink_box_of(),
            bx matches Some(b) ==> m.is_ink_box(b),
            m.ink_width() <= cell_w,
            m.ink_height() <= cell_h,
            y <= cell_h,
            rows@.len() == y,
            forall|yy: int| 0 <= yy < y ==> #[trigger] rows@[yy]@.len() == cell_w,
            forall|xx: int, yy: int|
                0 <= xx < cell_w && 0 <= yy < y ==> #[trigger] rows@[yy]@[xx] == centred_px(*m, cell_w as int, cell_h as int, xx, yy),
        decreases cell_h - y,
    {
        let mut line: Vec<u8> = Vec::new();
        let mut x: usize = 0;
        while x < cell_w
            invariant
                m.wf(),
                bx == m.ink_box_of(),
                bx matches Some(b) ==> m.is_ink_box(b),
                m.ink_width() <= cell_w,
                m.ink_height() <= cell_h,
                y < cell_h,
                x <= cell_w,
                line@.len() == x,
                forall|xx: int| 0 <= xx < x ==> #[trigger] line@[xx] == centred_px(*m, cell_w as int, cell_h as int, xx, y as int),
            decreases cell_w - x,
        {
            let v: u8 = match bx {
                None => 0,
                Some(b) => {
                    let bw: usize = b.right - b.left;
                    let bh: usize = b.bottom - b.top;
                    let px: usize = (cell_w - bw) / 2;
                    let py: usize = (cell_h - bh) / 2;
                    if x >= px && x - px < bw && y >= py && y - py < bh {
                        if m.rows[b.top + (y - py)][b.left + (x - px)] {
                            255
                        } else {
                            0
                        }
                    } else {
                        0
                    }
                },
            };
            line.push(v);
            x = x + 1;
        }
        rows.push(line);
        y = y + 1;
    }
    rows
}

impl GlyphAtlas {
    /// This atlas is the one made from `masks`: well formed, the cell as
    /// wide as the widest ink box and as tall as the tallest, and glyph `i`
    /// mask `i` centred in the cell.
    pub open spec fn is_atlas_of(&self, masks: Seq<InkMask>) -> bool {
        &&& self.wf()
        &&& self.cell_w == max_ink_width(masks)
        &&& self.cell_h == max_ink_height(masks)
        &&& self.glyphs@.len() == masks.len()
        &&& forall|i: int|
            0 <= i < masks.len() ==> is_centred_glyph(
                #[trigger] self.glyphs@[i]@,
                masks[i],
                self.cell_w as int,
                self.cell_h as int,
            )
    }

    /// Builds the atlas of a ramp from its masks at the fitted size. The
    /// cell is as wide as the widest ink box and as tall as the tallest;
    /// glyph `i` is mask `i` centred in the cell. Fails with
    /// `EmptyCharacterSet` when no mask has ink.
    pub fn from_masks(masks: &Vec<InkMask>) -> (r: Result<GlyphAtlas, FontError>)
        requires
            masks_wf(masks@),
        ensures
            r is Err <==> max_ink_height(masks@) == 0,
            r is Err ==> r == Err::<GlyphAtlas, FontError>(FontError::EmptyCharacterSet),
            r matches Ok(a) ==> a.is_atlas_of(masks@),
    {
        let (cell_w, cell_h) = ink_extent(masks);
        if cell_h == 0 {
            return Err(FontError::EmptyCharacterSet);
        }
        proof {
            assert(masks@.len() > 0);
        }
        let mut glyphs: Vec<Vec<Vec<u8>>> = Vec::new();
        let mut i: usize = 0;
        while i < masks.len()
            invariant
                masks_wf(masks@),
                cell_w == max_ink_width(masks@),
                cell_h == max_ink_height(masks@),
                i <= masks@.len(),
                glyphs@.len() == i,
                forall|k: int|
                    0 <= k < i ==> is_centred_glyph(#[trigger] glyphs@[k]@, masks@[k], cell_w as int, cell_h as int),
            decreases masks@.len() - i,
        {
            proof {
                lemma_max_ink_bounds(masks@, i as int);
            }
            let g = centre_glyph(&masks[i], cell_w, cell_h);
            glyphs.push(g);
            i = i + 1;
        }
        Ok(GlyphAtlas { cell_w, cell_h, glyphs })
    }
}

/// Font sizes are counted in steps of 1/64 pixel.
pub const SIZE_STEPS_PER_PX: u32 = 64;

/// The most size corrections a fit makes before it gives up.
pub const MAX_FIT_CORRECTIONS: u32 = 16;

/// What a fit asks for after a measurement.
#[derive(Debug, Clone, Copy, PartialEq, Eq, Structural)]
pub enum FitStep {
    /// Rasterise the ramp again at the new `size` and report its height.
    Measure,
    /// The last measured size fits the cell height: build the atlas from it.
    Converged,
    /// The fit failed.
    Failed(FontError),
}

/// Search for a font size at which the tallest ink box of a ramp is at
/// most `target` pixels. The ramp is first measured at a size of `target`
/// pixels; the size is then scaled by `target / measured` (rounded down to
/// a size step) and measured again, until the measured height fits.
#[derive(Debug, Clone, Copy, PartialEq, Eq, Structural)]
pub struct FontFit {
    /// The cell height to fit, in pixels.
    pub target: u32,
    /// The size to rasterise at next, in size steps.
    pub size: u128,
    /// Corrections made so far.
    pub corrections: u32,
}

/// The state and request that follow a measurement of `measured` pixels.
pub open spec fn fit_transition(f: FontFit, measured: int) -> (FontFit, FitStep) {
    if measured == 0 {
        (f, FitStep::Failed(FontError::EmptyCharacterSet))
    } else if f.corrections > 0 && measured <= f.target {
        (f, FitStep::Converged)
    } else if f.corrections >= MAX_FIT_CORRECTIONS {
        (f, FitStep::Failed(FontError::FontFitDidNotConverge))
    } else {
        (FontFit { size: (f.size * f.target / measured) as u128, corrections: (f.corrections + 1) as u32, ..f }, FitStep::Measure)
    }
}

impl FontFit {
    /// The fit is under way: the first size is `target` pixels, and no size
    /// exceeds the first one scaled up by `target`.
    pub open spec fn wf(&self) -> bool {
        &&& self.target > 0
        &&& self.corrections <= MAX_FIT_CORRECTIONS
        &&& self.corrections == 0 ==> self.size == SIZE_STEPS_PER_PX * self.target
        &&& self.size <= SIZE_STEPS_PER_PX * self.target * self.target
    }

    /// Starts a fit to a cell `target` pixels tall, at a size of `target`
    /// pixels.
    pub fn new(target: u32) -> (f: FontFit)
        requires
            target > 0,
        ensures
            f.wf(),
            f.target == target,
            f.size == SIZE_STEPS_PER_PX * target,
            f.corrections == 0,
    {
        assert(SIZE_STEPS_PER_PX * target <= SIZE_STEPS_PER_PX * target * target) by (nonlinear_arith)
            requires target > 0;
        FontFit { target, size: SIZE_STEPS_PER_PX as u128 * target as u128, corrections: 0 }
    }

    /// Takes the height of the tallest ink box of the ramp rasterised at
    /// `size` and says what to do next. A height of 0 fails with
    /// `EmptyCharacterSet`. After the first measurement the size is always
    /// corrected; after later ones the fit has converged if the height is at
    /// most `target`, and otherwise corrects the size again, unless it has
    /// already made `MAX_FIT_CORRECTIONS` corrections, in which case it
    /// fails with `FontFitDidNotConverge`.
    pub fn advance(&mut self, measured: u32) -> (s: FitStep)
        requires
            old(self).wf(),
        ensures
            final(self).wf(),
            (*final(self), s) == fit_transition(*old(self), measured as int),
            s == FitStep::Converged ==> measured <= old(self).target,
            s == FitStep::Measure ==> final(self).corrections == old(self).corrections + 1,
            s == FitStep::Measure && old(self).corrections > 0 && old(self).size > 0 ==> final(self).size < old(self).size,
    {
        if measured == 0 {
            return FitStep::Failed(FontError::EmptyCharacterSet);
        }
        if self.corrections > 0 && measured <= self.target {
            return FitStep::Converged;
        }
        if self.corrections >= MAX_FIT_CORRECTIONS {
            return FitStep::Failed(FontError::FontFitDidNotConverge);
        }
        let ghost t = self.target as int;
        let ghost m = measured as int;
        let ghost z = self.size as int;
        assert(z * t <= 64 * t * t * t) by (nonlinear_arith)
            requires z <= 64 * t * t, t > 0;
        assert(64 * t * t * t <= 64 * (u32::MAX as int) * (u32::MAX as int) * (u32::MAX as int)) by (nonlinear_arith)
            requires 0 < t <= u32::MAX;
        let next: u128 = self.size * self.target as u128 / measured as u128;
        proof {
            if self.corrections == 0 {
                assert(z * t / m <= 64 * t * t) by (nonlinear_arith)
                    requires z == 64 * t, m >= 1, t > 0;
            } else {
                vstd::arithmetic::div_mod::lemma_fundamental_div_mod(z * t, m);
                let q = z * t / m;
                assert(q * m <= z * t) by (nonlinear_arith)
                    requires z * t == m * q + (z * t) % m, (z * t) % m >= 0;
                assert(q <= z && (z > 0 ==> q < z)) by (nonlinear_arith)
                    requires q * m <= z * t, m > t, t > 0, z >= 0;
            }
        }
        self.size = next;
        self.corrections = self.corrections + 1;
        FitStep::Measure
    }
}

/// A fitted atlas fits its cell: once a fit to a cell `target` pixels tall
/// converges on a measurement of the ramp's masks, the atlas built from those
/// masks has every glyph `cell_w` by `cell_h` with `cell_h <= target`, and no
/// mask has an ink box taller than `target`.
pub proof fn lemma_fitted_atlas_within_cell(fit: FontFit, masks: Seq<InkMask>, atlas: GlyphAtlas)
    requires
        fit.wf(),
        fit_transition(fit, max_ink_height(masks)).1 == FitStep::Converged,
        atlas.is_atlas_of(masks),
    ensures
        atlas.cell_h <= fit.target,
        forall|g: int|
            0 <= g < atlas.glyphs@.len() ==> shaped(#[trigger] atlas.glyphs@[g]@, atlas.cell_w as int, atlas.cell_h as int),
        forall|i: int| 0 <= i < masks.len() ==> (#[trigger] masks[i]).ink_height() <= fit.target,
{
    assert forall|i: int| 0 <= i < masks.len() implies (#[trigger] masks[i]).ink_height() <= fit.target by {
        lemma_max_ink_bounds(masks, i);
    }
}

/// Centring crops no ink: an inked sample `(x, y)` of a mask whose ink box
/// fits the cell shows as 255 at `(x - left + pad_x, y - top + pad_y)` of
/// its glyph, which lies inside the cell.
pub proof fn lemma_centring_keeps_ink(m: InkMask, cell_w: int, cell_h: int, x: int, y: int)
    requires
        m.ink_width() <= cell_w,
        m.ink_height() <= cell_h,
        m.ink(x, y),
    ensures
        (m.ink_box_of() matches Some(b) && {
            let gx = x - b.left + pad(cell_w, b.width());
            let gy = y - b.top + pad(cell_h, b.height());
            &&& 0 <= gx < cell_w
            &&& 0 <= gy < cell_h
            &&& centred_px(m, cell_w, cell_h, gx, gy) == 255
        }),
{
    lemma_ink_box_exists(m, x, y);
    let b = choose|b: InkBox| m.is_ink_box(b);
    assert(m.has_ink());
    let gx = x - b.left + pad(cell_w, b.width());
    let gy = y - b.top + pad(cell_h, b.height());
    assert(b.left + gx - pad(cell_w, b.width()) == x);
    assert(b.top + gy - pad(cell_h, b.height()) == y);
}

} // verus!
