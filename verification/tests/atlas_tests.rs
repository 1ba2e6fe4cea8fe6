use glyph_wave::atlas::{atlas_rows, glyph_cell, ATLAS_COLS};
use glyph_wave::glyphs::{glyph_ramp, GLYPH_COUNT, GLYPH_RAMP};

#[test]
fn atlas_rows_rounds_up() {
    assert_eq!(atlas_rows(171), 14);
    assert_eq!(atlas_rows(169), 13);
    assert_eq!(atlas_rows(170), 14);
    assert_eq!(atlas_rows(1), 1);
    assert_eq!(atlas_rows(0), 0);
}

#[test]
fn glyph_cells_run_row_by_row() {
    assert_eq!(glyph_cell(0), (0, 0));
    assert_eq!(glyph_cell(12), (12, 0));
    assert_eq!(glyph_cell(13), (0, 1));
    assert_eq!(glyph_cell(170), (1, 13));
}

#[test]
fn every_glyph_gets_its_own_cell_inside_the_atlas() {
    let rows = atlas_rows(GLYPH_COUNT);
    let mut seen = vec![false; ATLAS_COLS * rows];
    for i in 0..GLYPH_COUNT {
        let (col, row) = glyph_cell(i);
        assert!(col < ATLAS_COLS && row < rows);
        let slot = row * ATLAS_COLS + col;
        assert_eq!(slot, i);
        assert!(!seen[slot]);
        seen[slot] = true;
    }
}

#[test]
fn glyph_ramp_runs_from_void_to_emoji() {
    let ramp = glyph_ramp();
    assert_eq!(ramp.len(), GLYPH_COUNT);
    assert_eq!(GLYPH_COUNT, 171);
    assert_eq!(GLYPH_RAMP.chars().count(), GLYPH_COUNT);
    assert!(ramp[0..5].iter().all(|&c| c == ' '));
    assert_eq!(ramp[5], '.');
    assert_eq!(ramp[9], '\'');
    assert_eq!(ramp[ramp.len() - 1], '💥');
    assert_eq!(ramp[ramp.len() - 7], '█');
}
