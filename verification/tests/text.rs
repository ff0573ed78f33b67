use render_core::atlas::{Glyph, Typeface};
use render_core::text::{CharacterNotFound, Renderer, Text, TextError};

fn glyph(c: char, advance: i32, width: usize, height: usize, bearing_x: i32, bearing_y: i32) -> Glyph {
    Glyph {
        character: c,
        atlas_x: 100,
        atlas_y: 200,
        width,
        height,
        advance,
        bearing_x,
        bearing_y,
    }
}

fn test_face() -> Typeface {
    // glyph A advance 10, glyph B advance 7; whitespace advance 5; size 50
    let glyphs = vec![
        glyph('A', 10, 8, 12, 1, 2),
        glyph('B', 7, 6, 9, 3, 4),
    ];
    Typeface::from_parts(glyphs, 50, 5)
}

#[test]
fn space_advances_before_the_next_glyph() {
    // content "A B": after glyph A (advance 10) and one space (advance 5)
    // the pen sits at 15; B's bearing is added on top
    let face = test_face();
    let text: Text<i32> = Text::new(&face, 0, "A B").unwrap();
    let quads = text.quads();
    assert_eq!(quads.len(), 2);
    assert_eq!(quads[0].pos_x, 0 + 1);
    assert_eq!(quads[1].pos_x, 10 + 5 + 3);
}

#[test]
fn newline_resets_the_line_and_drops_one_font_size() {
    let face = test_face();
    let text: Text<i32> = Text::new(&face, 0, "A\nB").unwrap();
    let quads = text.quads();
    assert_eq!(quads.len(), 2);
    // A at the origin: y = size - height - bearing_y = 50 - 12 - 2
    assert_eq!(quads[0].pos_y, 36);
    // B on the next line: advance_y is one font size
    assert_eq!(quads[1].pos_x, 3);
    assert_eq!(quads[1].pos_y, 50 + 50 - 9 - 4);
}

#[test]
fn quads_carry_scale_and_atlas_rect() {
    let face = test_face();
    let text: Text<i32> = Text::new(&face, 0, "A").unwrap();
    let q = text.quads()[0];
    assert_eq!((q.scale_x, q.scale_y), (8, 12));
    assert_eq!((q.uv_x, q.uv_y), (100, 200));
    assert_eq!((q.uv_w, q.uv_h), (8, 12));
}

#[test]
fn space_and_newline_emit_no_quad() {
    let face = test_face();
    let text: Text<i32> = Text::new(&face, 0, "A \nB").unwrap();
    assert_eq!(text.quads().len(), 2);
}

#[test]
fn tab_is_looked_up_like_any_other_character() {
    // only the space character and the newline are special: a tab must be
    // looked up, and fails when the font has no glyph for it
    let face = test_face();
    let r: Result<Text<i32>, CharacterNotFound> = Text::new(&face, 0, "A\tB");
    assert_eq!(r.err(), Some(CharacterNotFound('\t')));
}

#[test]
fn covered_tab_emits_a_quad() {
    let glyphs = vec![glyph('A', 10, 8, 12, 1, 2), glyph('\t', 20, 4, 1, 0, 0)];
    let face = Typeface::from_parts(glyphs, 50, 5);
    let text: Text<i32> = Text::new(&face, 0, "A\tA").unwrap();
    assert_eq!(text.quads().len(), 3);
    // the tab's own advance, not the whitespace advance, moves the pen
    assert_eq!(text.quads()[2].pos_x, 10 + 20 + 1);
}

#[test]
fn missing_character_fails_atomically() {
    let face = test_face();
    let r: Result<Text<i32>, CharacterNotFound> = Text::new(&face, 0, "AZB");
    assert_eq!(r.err(), Some(CharacterNotFound('Z')));
}

#[test]
fn empty_content_yields_no_quads() {
    let face = test_face();
    let text: Text<i32> = Text::new(&face, 0, "").unwrap();
    assert!(text.quads().is_empty());
}

#[test]
fn anchor_is_kept() {
    let face = test_face();
    let text: Text<(f32, f32, f32)> = Text::new(&face, (1.5, 2.5, 0.0), "A").unwrap();
    assert_eq!(*text.global(), (1.5, 2.5, 0.0));
}

#[test]
fn registry_rejects_unknown_handles() {
    let mut renderer: Renderer<i32, u32> = Renderer::new();
    assert_eq!(renderer.create_text(0, 0, "A").err(), Some(TextError::FontNotFound));
    assert_eq!(renderer.draw(0, 0xFF00FF, 0).err(), Some(TextError::TextNotFound));
}

#[test]
fn failed_font_load_leaves_the_registry_untouched() {
    let mut renderer: Renderer<i32, u32> = Renderer::new();
    let r = renderer.load_font_from_memory(32, &[1, 2, 3], &['a']);
    assert!(r.is_err());
    // no partial font or atlas was registered
    assert!(renderer.atlas(0).is_none());
    assert_eq!(renderer.create_text(0, 0, "a").err(), Some(TextError::FontNotFound));
}

#[test]
fn update_drains_the_queue_in_order() {
    let mut renderer: Renderer<i32, u32> = Renderer::new();
    let handle = renderer.register_font(test_face(), vec![0; 4]);
    assert_eq!(handle, 0);
    let ta = renderer.create_text(handle, 0, "A").unwrap();
    let tb = renderer.create_text(handle, 0, "AB").unwrap();
    renderer.draw(tb, 1, 10).unwrap();
    renderer.draw(ta, 2, 20).unwrap();
    renderer.draw(tb, 3, 30).unwrap();
    let draws = renderer.update();
    // FIFO: both glyphs of tb, then ta's glyph, then tb's again
    assert_eq!(draws.len(), 2 + 1 + 2);
    assert_eq!((draws[0].color, draws[0].offset), (1, 10));
    assert_eq!((draws[1].color, draws[1].offset), (1, 10));
    assert_eq!((draws[2].color, draws[2].offset), (2, 20));
    assert_eq!((draws[3].color, draws[3].offset), (3, 30));
    assert_eq!(draws[2].quad.pos_x, 1);
    assert_eq!(draws[1].quad.pos_x, 10 + 3);
    // the queue is drained exactly once per frame
    assert!(renderer.update().is_empty());
}

#[test]
fn create_text_registers_under_fresh_handles() {
    let mut renderer: Renderer<i32, u32> = Renderer::new();
    let handle = renderer.register_font(test_face(), vec![0; 4]);
    assert_eq!(renderer.create_text(handle, 0, "A").unwrap(), 0);
    assert_eq!(renderer.create_text(handle, 0, "B").unwrap(), 1);
    assert_eq!(
        renderer.create_text(handle, 0, "Q").err(),
        Some(TextError::CharacterNotFound('Q'))
    );
}
