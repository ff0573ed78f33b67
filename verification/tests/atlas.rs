use render_core::atlas::{expand_rgb, pack_glyphs, FontLoadingError, RasterGlyph, Typeface, ATLAS_SIZE};

fn raster(c: char, width: usize, height: usize, bitmap: Vec<u8>) -> RasterGlyph {
    RasterGlyph { character: c, width, height, advance: 10, bearing_x: 1, bearing_y: 2, bitmap }
}

#[test]
fn blits_glyphs_at_the_pen() {
    let glyphs = vec![raster('a', 2, 2, vec![1, 2, 3, 4]), raster('b', 1, 1, vec![9])];
    let (records, atlas) = pack_glyphs(50, &glyphs);
    assert_eq!(atlas.len(), ATLAS_SIZE * ATLAS_SIZE);
    assert_eq!(records.len(), 2);
    assert_eq!((records[0].atlas_x, records[0].atlas_y), (0, 0));
    // pen advances by width plus the two-texel padding
    assert_eq!((records[1].atlas_x, records[1].atlas_y), (4, 0));
    assert_eq!(atlas[0], 1);
    assert_eq!(atlas[1], 2);
    assert_eq!(atlas[ATLAS_SIZE], 3);
    assert_eq!(atlas[ATLAS_SIZE + 1], 4);
    assert_eq!(atlas[2], 0);
    assert_eq!(atlas[4], 9);
}

#[test]
fn wraps_exactly_when_a_glyph_would_pass_the_edge() {
    // after the first glyph the pen sits at 1022 + 2 = 1024; a one-texel
    // glyph does not fit (1024 + 1 > 1024), so it starts a new shelf one
    // font size down
    let glyphs = vec![
        raster('a', 1022, 1, vec![5; 1022]),
        raster('b', 1, 1, vec![9]),
    ];
    let (records, atlas) = pack_glyphs(50, &glyphs);
    assert_eq!((records[0].atlas_x, records[0].atlas_y), (0, 0));
    assert_eq!((records[1].atlas_x, records[1].atlas_y), (0, 50));
    assert_eq!(atlas[50 * ATLAS_SIZE], 9);
}

#[test]
fn fitting_glyph_does_not_wrap() {
    // pen at 1000 + 2; a 22-texel glyph ends exactly at the edge
    // (1002 + 22 == 1024), which is no overflow, so no wrap
    let glyphs = vec![
        raster('a', 1000, 1, vec![5; 1000]),
        raster('b', 22, 1, vec![6; 22]),
    ];
    let (records, _) = pack_glyphs(50, &glyphs);
    assert_eq!((records[1].atlas_x, records[1].atlas_y), (1002, 0));
}

#[test]
fn glyph_records_carry_their_metrics() {
    let glyphs = vec![raster('x', 3, 1, vec![1, 2, 3])];
    let (records, _) = pack_glyphs(64, &glyphs);
    let g = &records[0];
    assert_eq!(g.character, 'x');
    assert_eq!(g.width, 3);
    assert_eq!(g.height, 1);
    assert_eq!(g.advance, 10);
    assert_eq!(g.bearing_x, 1);
    assert_eq!(g.bearing_y, 2);
}

#[test]
fn tall_glyphs_are_clipped_at_the_bottom() {
    // place a glyph on the last shelf: rows past the square are clipped
    let mut glyphs = Vec::new();
    // 1023-wide glyphs each force a wrap of the one that follows
    for _ in 0..20 {
        glyphs.push(raster('w', 1023, 1, vec![1; 1023]));
    }
    // the tall glyph wraps onto the shelf at row 20 * 50 = 1000; its last
    // six rows fall past the square and are clipped
    glyphs.push(raster('t', 1, 30, vec![8; 30]));
    let (records, atlas) = pack_glyphs(50, &glyphs);
    let g = records.last().unwrap();
    assert_eq!((g.atlas_x, g.atlas_y), (0, 1000));
    assert_eq!(atlas[1000 * ATLAS_SIZE], 8);
    assert_eq!(atlas[1023 * ATLAS_SIZE], 8);
    assert_eq!(atlas.len(), ATLAS_SIZE * ATLAS_SIZE);
}

#[test]
fn expand_rgb_replicates_coverage() {
    let rgb = expand_rgb(&vec![5, 7, 0]);
    assert_eq!(rgb, vec![5, 5, 5, 7, 7, 7, 0, 0, 0]);
}

#[test]
fn invalid_font_bytes_are_rejected() {
    let r = Typeface::load_font(32, &[0, 1, 2, 3, 4, 5, 6, 7], &['a']);
    assert!(matches!(r, Err(FontLoadingError::FontInvalid)));
}

#[test]
fn typeface_from_parts_round_trips() {
    let glyphs = vec![raster('q', 2, 2, vec![0; 4])];
    let (records, _) = pack_glyphs(40, &glyphs);
    let face = Typeface::from_parts(records, 40, 17);
    assert_eq!(face.size(), 40);
    assert_eq!(face.white_space(), 17);
    assert_eq!(face.glyph('q').unwrap().character, 'q');
    assert!(face.glyph('z').is_none());
}
