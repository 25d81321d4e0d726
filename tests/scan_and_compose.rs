use textart::atlas::GlyphAtlas;
use textart::compose::{bucket, composite};
use textart::scan::{RenderData, ScanError};

#[test]
fn scan_map_exact_multiple() {
    let m = RenderData::new(4, 2, 16, 8).unwrap();
    assert_eq!(m.x, vec![0, 4, 8, 12]);
    assert_eq!(m.y, vec![0, 4]);
    assert_eq!(m.r_w, 4);
    assert_eq!(m.r_h, 2);
}

#[test]
fn scan_map_rounds_down() {
    let m = RenderData::new(3, 3, 10, 11).unwrap();
    assert_eq!(m.x, vec![0, 3, 6]);
    assert_eq!(m.y, vec![0, 3, 7]);
}

#[test]
fn scan_map_rejects_empty_grid() {
    assert_eq!(RenderData::new(0, 3, 10, 10).err(), Some(ScanError::InvalidGridDimensions));
    assert_eq!(RenderData::new(3, 0, 10, 10).err(), Some(ScanError::InvalidGridDimensions));
}

#[test]
fn scan_map_ordered_and_inside_frame() {
    for (gw, ow) in [(1u32, 1u32), (7, 100), (13, 13), (5, 1920), (9, 4)] {
        let m = RenderData::new(gw, 1, ow, 1).unwrap();
        assert_eq!(m.x[0], 0);
        for i in 0..m.x.len() {
            assert!(m.x[i] < ow as usize);
            if i > 0 {
                assert!(m.x[i - 1] <= m.x[i]);
            }
        }
    }
}

#[test]
fn bucket_scenario_four_glyph_ramp() {
    // " .#@": 0 -> ' ', 255 -> '@', 128 -> '#'
    assert_eq!(bucket(0, 4), 0);
    assert_eq!(bucket(255, 4), 3);
    assert_eq!(bucket(128, 4), 2);
    assert_eq!(bucket(63, 4), 0);
    assert_eq!(bucket(64, 4), 1);
}

#[test]
fn bucket_is_monotone() {
    for n in 1usize..40 {
        for b in 0u8..255 {
            assert!(bucket(b, n) <= bucket(b + 1, n));
            assert!(bucket(b + 1, n) < n);
        }
    }
}

fn solid(v: u8, w: usize, h: usize) -> Vec<Vec<u8>> {
    vec![vec![v; w]; h]
}

/// Four 2x2 glyphs, glyph `g` filled with `10 * (g + 1)`.
fn ramp_atlas() -> GlyphAtlas {
    GlyphAtlas {
        cell_w: 2,
        cell_h: 2,
        glyphs: vec![solid(10, 2, 2), solid(20, 2, 2), solid(30, 2, 2), solid(40, 2, 2)],
    }
}

#[test]
fn composite_uniform_grids_pick_ramp_ends() {
    let atlas = ramp_atlas();
    let map = RenderData::new(2, 2, 4, 4).unwrap();
    for (sample, expect) in [(0u8, 10u8), (255, 40), (128, 30)] {
        let grid = vec![sample; 4];
        let mut plane = vec![0u8; 16];
        composite(&grid, 2, &atlas, &map, &mut plane, 4);
        assert!(plane.iter().all(|&p| p == expect));
    }
}

#[test]
fn composite_stamps_cells_and_keeps_borders() {
    let atlas = GlyphAtlas {
        cell_w: 2,
        cell_h: 2,
        glyphs: vec![vec![vec![1, 2], vec![3, 4]], vec![vec![5, 6], vec![7, 8]]],
    };
    // 2x1 grid onto a 5x3 frame with rows 6 bytes apart; the grid rows are
    // 3 bytes apart (one byte of padding).
    let map = RenderData::new(2, 1, 5, 3).unwrap();
    assert_eq!(map.x, vec![0, 2]);
    let grid = vec![0u8, 200, 99];
    let mut plane = vec![9u8; 18];
    composite(&grid, 3, &atlas, &map, &mut plane, 6);
    assert_eq!(
        plane,
        vec![
            1, 2, 5, 6, 9, 9, //
            3, 4, 7, 8, 9, 9, //
            9, 9, 9, 9, 9, 9,
        ]
    );
}

#[test]
fn composite_twice_into_fresh_templates_is_identical() {
    let atlas = ramp_atlas();
    let map = RenderData::new(3, 2, 7, 5).unwrap();
    let grid: Vec<u8> = vec![0, 90, 180, 255, 64, 128];
    let template: Vec<u8> = (0..35u32).map(|i| (i * 7 % 256) as u8).collect();
    let mut a = template.clone();
    let mut b = template.clone();
    composite(&grid, 3, &atlas, &map, &mut a, 7);
    composite(&grid, 3, &atlas, &map, &mut b, 7);
    assert_eq!(a, b);
    assert_ne!(a, template);
}

#[test]
fn composite_brighter_grid_never_picks_dimmer_glyph() {
    let atlas = ramp_atlas();
    let map = RenderData::new(1, 1, 2, 2).unwrap();
    let mut last = 0u8;
    for b in 0u8..=255 {
        let mut plane = vec![0u8; 4];
        composite(&vec![b], 1, &atlas, &map, &mut plane, 2);
        assert!(plane[0] >= last);
        last = plane[0];
    }
    assert_eq!(last, 40);
}
