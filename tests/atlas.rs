use textart::atlas::{ink_extent, FitStep, FontError, FontFit, GlyphAtlas, InkBox, InkMask, MAX_FIT_CORRECTIONS};

fn mask(rows: &[&str]) -> InkMask {
    let width = rows.first().map(|r| r.len()).unwrap_or(0);
    InkMask { width, rows: rows.iter().map(|r| r.chars().map(|c| c == '#').collect()).collect() }
}

#[test]
fn ink_box_is_tight() {
    let m = mask(&["....", ".#..", "..#.", "...."]);
    assert_eq!(m.ink_box(), Some(InkBox { left: 1, top: 1, right: 3, bottom: 3 }));
}

#[test]
fn ink_box_of_blank_and_outline_free_glyphs() {
    assert_eq!(mask(&["...", "..."]).ink_box(), None);
    assert_eq!(mask(&[]).ink_box(), None);
}

#[test]
fn ink_extent_takes_widest_and_tallest() {
    let ms = vec![mask(&["#..", "#..", "#.."]), mask(&["###", "...", "..."]), mask(&[])];
    assert_eq!(ink_extent(&ms), (3, 3));
    assert_eq!(ink_extent(&vec![]), (0, 0));
}

#[test]
fn atlas_centres_each_glyph() {
    // '|' is 1x3, '-' is 3x1, ' ' has no outline
    let ms = vec![mask(&["#..", "#..", "#.."]), mask(&["...", "###", "..."]), mask(&[])];
    let a = GlyphAtlas::from_masks(&ms).unwrap();
    assert_eq!((a.cell_w, a.cell_h), (3, 3));
    assert_eq!(a.glyph_count(), 3);
    assert_eq!(a.glyphs[0], vec![vec![0, 255, 0], vec![0, 255, 0], vec![0, 255, 0]]);
    assert_eq!(a.glyphs[1], vec![vec![0, 0, 0], vec![255, 255, 255], vec![0, 0, 0]]);
    assert_eq!(a.glyphs[2], vec![vec![0; 3]; 3]);
}

#[test]
fn atlas_pads_rounding_down() {
    // a 1x1 dot in a 4x2 cell (set by the other glyph) sits at column 1, row 0
    let ms = vec![mask(&["#"]), mask(&["####", "####"])];
    let a = GlyphAtlas::from_masks(&ms).unwrap();
    assert_eq!((a.cell_w, a.cell_h), (4, 2));
    assert_eq!(a.glyphs[0], vec![vec![0, 255, 0, 0], vec![0, 0, 0, 0]]);
}

#[test]
fn atlas_without_ink_is_rejected() {
    assert_eq!(GlyphAtlas::from_masks(&vec![mask(&["..."]), mask(&[])]).err(), Some(FontError::EmptyCharacterSet));
    assert_eq!(GlyphAtlas::from_masks(&vec![]).err(), Some(FontError::EmptyCharacterSet));
}

#[test]
fn fit_shrinks_until_it_fits() {
    let mut f = FontFit::new(10);
    assert_eq!(f.size, 640);
    assert_eq!(f.advance(12), FitStep::Measure);
    assert_eq!(f.size, 533);
    assert_eq!(f.advance(11), FitStep::Measure);
    assert_eq!(f.size, 484);
    assert_eq!(f.advance(10), FitStep::Converged);
    assert_eq!(f.size, 484);
}

#[test]
fn fit_always_corrects_the_first_measurement() {
    let mut f = FontFit::new(10);
    assert_eq!(f.advance(8), FitStep::Measure);
    assert_eq!(f.size, 800);
    assert_eq!(f.advance(10), FitStep::Converged);
}

#[test]
fn fit_without_ink_fails() {
    let mut f = FontFit::new(10);
    assert_eq!(f.advance(0), FitStep::Failed(FontError::EmptyCharacterSet));
}

#[test]
fn fit_gives_up_after_bounded_corrections() {
    let mut f = FontFit::new(10);
    for _ in 0..MAX_FIT_CORRECTIONS {
        assert_eq!(f.advance(11), FitStep::Measure);
    }
    assert_eq!(f.advance(11), FitStep::Failed(FontError::FontFitDidNotConverge));
}

#[test]
fn fitted_atlas_fits_cell_height() {
    let target = 3u32;
    let ms = vec![mask(&["#..", "#..", "#.."]), mask(&["##", "##"])];
    let (_, h) = ink_extent(&ms);
    let mut f = FontFit::new(target);
    assert_eq!(f.advance(4), FitStep::Measure);
    assert_eq!(f.advance(h as u32), FitStep::Converged);
    let a = GlyphAtlas::from_masks(&ms).unwrap();
    assert!(a.cell_h <= target as usize);
    for g in &a.glyphs {
        assert_eq!(g.len(), a.cell_h);
        assert!(g.iter().all(|row| row.len() == a.cell_w));
    }
}
