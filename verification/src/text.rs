//! Text layout engine and the text renderer's registries: turn a string
//! plus a loaded typeface into one placement transform per visible glyph,
//! honoring whitespace and newline advance rules, and keep fonts, texts and
//! the per-frame draw queue behind stable integer handles.

use vstd::prelude::*;
use vstd::string::StrSliceExecFns;

use crate::atlas::{advance_of, find_glyph, font_ok, glyph_covered, FontLoadingError, Glyph, Typeface};
use crate::fontscan::font_names_ok;

verus! {

/// A requested character that the typeface has no glyph for.
#[derive(Clone, Copy, Debug, PartialEq, Eq, Structural)]
pub struct CharacterNotFound(pub char);

/// Errors of the text registry: a handle that names no registered font or
/// text, or a character the font does not cover.
#[derive(Clone, Copy, Debug, PartialEq, Eq, Structural)]
pub enum TextError {
    FontNotFound,
    TextNotFound,
    CharacterNotFound(char),
}

/// Placement of one visible glyph: position and scale in pixels, plus the
/// glyph's atlas rectangle in texels.
#[derive(Clone, Copy, Debug, PartialEq, Eq, Structural)]
pub struct GlyphQuad {
    pub pos_x: i128,
    pub pos_y: i128,
    pub scale_x: usize,
    pub scale_y: usize,
    pub uv_x: usize,
    pub uv_y: u64,
    pub uv_w: usize,
    pub uv_h: usize,
}

/// The pen advance after laying out the first `i` characters: the space
/// character adds the font's whitespace advance, a newline returns to the
/// left edge and drops one font size, and every other character is a
/// visible glyph that adds its own advance.  Only space and newline are
/// special; anything else, tab included, must be looked up.
pub open spec fn advance_after(
    gs: Seq<Glyph>,
    size: int,
    ws_adv: int,
    content: Seq<char>,
    i: int,
) -> (int, int)
    decreases i,
{
    if i <= 0 {
        (0, 0)
    } else {
        let prev = advance_after(gs, size, ws_adv, content, i - 1);
        let c = content[i - 1];
        if c == ' ' {
            (prev.0 + ws_adv, prev.1)
        } else if c == '\n' {
            (0, prev.1 + size)
        } else {
            match find_glyph(gs, c) {
                Some(g) => (prev.0 + g.advance, prev.1),
                None => prev,
            }
        }
    }
}

/// The transform of one visible glyph placed at advance `a`: the bearing
/// offsets the position, and the vertical term flips bottom-up glyph
/// metrics into a top-left-origin screen space.
pub open spec fn quad_for(g: Glyph, a: (int, int), size: int) -> GlyphQuad {
    GlyphQuad {
        pos_x: (a.0 + g.bearing_x) as i128,
        pos_y: (a.1 + size - g.height - g.bearing_y) as i128,
        scale_x: g.width,
        scale_y: g.height,
        uv_x: g.atlas_x,
        uv_y: g.atlas_y,
        uv_w: g.width,
        uv_h: g.height,
    }
}

/// The glyph quads emitted for the first `i` characters, in order: the
/// space character and the newline emit none, every other character emits
/// the quad of its glyph.
pub open spec fn quads_of(
    gs: Seq<Glyph>,
    size: int,
    ws_adv: int,
    content: Seq<char>,
    i: int,
) -> Seq<GlyphQuad>
    decreases i,
{
    if i <= 0 {
        Seq::empty()
    } else {
        let prev = quads_of(gs, size, ws_adv, content, i - 1);
        let c = content[i - 1];
        if c == ' ' || c == '\n' {
            prev
        } else {
            match find_glyph(gs, c) {
                Some(g) => prev.push(
                    quad_for(g, advance_after(gs, size, ws_adv, content, i - 1), size),
                ),
                None => prev,
            }
        }
    }
}

/// Every character of `content` is a space, a newline, or has a glyph in
/// `gs`: the condition under which text layout succeeds.
pub open spec fn content_covered(gs: Seq<Glyph>, content: Seq<char>) -> bool {
    forall|i: int|
        0 <= i < content.len() ==> #[trigger] content[i] == ' ' || content[i] == '\n'
            || find_glyph(gs, content[i]) is Some
}

/// The pen advance stays within one glyph advance per character laid out.
proof fn lemma_advance_bounds(gs: Seq<Glyph>, size: int, ws_adv: int, content: Seq<char>, i: int)
    requires
        0 <= i,
        0 <= size <= 0x10000,
        -0x8000_0000 <= ws_adv <= 0x8000_0000,
    ensures
        -(i * 0x8000_0000) <= advance_after(gs, size, ws_adv, content, i).0 <= i * 0x8000_0000,
        0 <= advance_after(gs, size, ws_adv, content, i).1 <= i * 0x10000,
    decreases i,
{
    if i > 0 {
        lemma_advance_bounds(gs, size, ws_adv, content, i - 1);
        assert((i - 1) * 0x8000_0000 + 0x8000_0000 == i * 0x8000_0000 && (i - 1) * 0x10000
            + 0x10000 == i * 0x10000) by (nonlinear_arith);
    }
    assert(0 <= i * 0x8000_0000 && 0 <= i * 0x10000) by (nonlinear_arith)
        requires
            0 <= i,
    ;
}

/// A built text object: the anchor it was created with plus one placement
/// transform per visible character, immutable once built.
pub struct Text<V> {
    global: V,
    quads: Vec<GlyphQuad>,
}

impl<V> Text<V> {
    /// The anchor position the text was created with.
    pub closed spec fn spec_global(self) -> V {
        self.global
    }

    /// The per-glyph placement transforms, in content order.
    pub closed spec fn spec_quads(self) -> Seq<GlyphQuad> {
        self.quads@
    }

    /// The anchor position the text was created with.
    pub fn global(&self) -> (r: &V)
        ensures
            *r == self.spec_global(),
    {
        &self.global
    }

    /// The per-glyph placement transforms, in content order.
    pub fn quads(&self) -> (r: &Vec<GlyphQuad>)
        ensures
            r@ == self.spec_quads(),
    {
        &self.quads
    }

    /// Lay out `content` against a loaded typeface: the space character
    /// advances by the font's whitespace width, a newline resets the line,
    /// and every other character must have a glyph, or the whole call fails
    /// with the first character that has none, and no text object.
    pub fn new(font: &Typeface, position: V, content: &str) -> (r: Result<
        Text<V>,
        CharacterNotFound,
    >)
        ensures
            ({
                let gs = font.spec_glyphs();
                let size = font.spec_size() as int;
                let ws_adv = font.spec_white_space() as int;
                match r {
                    Ok(t) => {
                        &&& content_covered(gs, content@)
                        &&& t.spec_global() == position
                        &&& t.spec_quads() == quads_of(
                            gs,
                            size,
                            ws_adv,
                            content@,
                            content@.len() as int,
                        )
                    },
                    Err(CharacterNotFound(c)) => exists|i: int|
                        0 <= i < content@.len() && #[trigger] content@[i] == c && c != ' ' && c
                            != '\n' && find_glyph(gs, c) is None && (forall|i2: int|
                            0 <= i2 < i ==> #[trigger] content@[i2] == ' ' || content@[i2] == '\n'
                                || find_glyph(gs, content@[i2]) is Some),
                }
            }),
    {
        let ghost gs = font.spec_glyphs();
        let size: u16 = font.size();
        let ws_adv: i32 = font.white_space();
        let ghost sizei = size as int;
        let ghost wsi = ws_adv as int;
        let n: usize = content.unicode_len();
        let mut quads: Vec<GlyphQuad> = Vec::new();
        let mut ax: i128 = 0;
        let mut ay: i128 = 0;
        let mut i: usize = 0;
        while i < n
            invariant
                n as nat == content@.len(),
                gs == font.spec_glyphs(),
                sizei == size as int && size == font.spec_size(),
                wsi == ws_adv as int && ws_adv == font.spec_white_space(),
                0 <= i <= n,
                (ax as int, ay as int) == advance_after(gs, sizei, wsi, content@, i as int),
                quads@ == quads_of(gs, sizei, wsi, content@, i as int),
                forall|i2: int|
                    0 <= i2 < i ==> #[trigger] content@[i2] == ' ' || content@[i2] == '\n'
                        || find_glyph(gs, content@[i2]) is Some,
            decreases n - i,
        {
            let ghost ii = i as int;
            proof {
                lemma_advance_bounds(gs, sizei, wsi, content@, ii);
                assert(ii * 0x8000_0000 <= 0xffff_ffff_ffff_ffff * 0x8000_0000 && ii * 0x10000
                    <= 0xffff_ffff_ffff_ffff * 0x10000) by (nonlinear_arith)
                    requires
                        0 <= ii <= 0xffff_ffff_ffff_ffff,
                ;
            }
            let c: char = content.get_char(i);
            if c == ' ' {
                ax = ax + ws_adv as i128;
            } else if c == '\n' {
                ax = 0;
                ay = ay + size as i128;
            } else {
                match font.glyph(c) {
                    None => {
                        return Err(CharacterNotFound(c));
                    },
                    Some(g) => {
                        let pos_x: i128 = ax + g.bearing_x as i128;
                        let pos_y: i128 = ay + size as i128 - g.height as i128
                            - g.bearing_y as i128;
                        quads.push(
                            GlyphQuad {
                                pos_x,
                                pos_y,
                                scale_x: g.width,
                                scale_y: g.height,
                                uv_x: g.atlas_x,
                                uv_y: g.atlas_y,
                                uv_w: g.width,
                                uv_h: g.height,
                            },
                        );
                        ax = ax + g.advance as i128;
                        proof {
                            assert(quads@ == quads_of(gs, sizei, wsi, content@, ii + 1));
                        }
                    },
                }
            }
            i = i + 1;
        }
        Ok(Text { global: position, quads })
    }
}

/// One glyph draw request of a frame: the queued color and world offset
/// plus the glyph's placement transform.
#[derive(Clone, Copy, Debug)]
pub struct GlyphDraw<V, C> {
    pub offset: V,
    pub color: C,
    pub quad: GlyphQuad,
}

/// The glyph draws one queued text request expands to.
pub open spec fn entry_quads<V, C>(texts: Seq<Text<V>>, e: (usize, C, V)) -> Seq<GlyphDraw<V, C>> {
    texts[e.0 as int].spec_quads().map_values(
        |q: GlyphQuad| GlyphDraw { offset: e.2, color: e.1, quad: q },
    )
}

/// The glyph draws of a whole frame: every queued request expanded, in
/// submission order.
pub open spec fn frame_quads<V, C>(
    texts: Seq<Text<V>>,
    dl: Seq<(usize, C, V)>,
) -> Seq<GlyphDraw<V, C>>
    decreases dl.len(),
{
    if dl.len() == 0 {
        Seq::empty()
    } else {
        frame_quads(texts, dl.drop_last()) + entry_quads(texts, dl.last())
    }
}

/// The text renderer's state: loaded fonts with their atlases, built texts,
/// and the per-frame draw queue, all addressed by stable integer handles.
pub struct Renderer<V, C> {
    fonts: Vec<Typeface>,
    atlases: Vec<Vec<u8>>,
    texts: Vec<Text<V>>,
    draw_list: Vec<(usize, C, V)>,
}

impl<V, C> Renderer<V, C> {
    /// The loaded fonts, in load order.
    pub closed spec fn spec_fonts(self) -> Seq<Typeface> {
        self.fonts@
    }

    /// The uploaded-ready atlases, parallel to the fonts.
    pub closed spec fn spec_atlases(self) -> Seq<Vec<u8>> {
        self.atlases@
    }

    /// The built texts, in creation order.
    pub closed spec fn spec_texts(self) -> Seq<Text<V>> {
        self.texts@
    }

    /// The queued draw requests of the current frame, in submission order.
    pub closed spec fn spec_draw_list(self) -> Seq<(usize, C, V)> {
        self.draw_list@
    }

    /// Every queued handle names a registered text, and every font has its
    /// atlas.
    pub open spec fn wf(self) -> bool {
        &&& forall|k: int|
            0 <= k < self.spec_draw_list().len() ==> (#[trigger] self.spec_draw_list()[k]).0
                < self.spec_texts().len()
        &&& self.spec_atlases().len() == self.spec_fonts().len()
    }

    /// An empty renderer: no fonts, no texts, nothing queued.
    pub fn new() -> (r: Self)
        ensures
            r.wf(),
            r.spec_fonts().len() == 0,
            r.spec_atlases().len() == 0,
            r.spec_texts().len() == 0,
            r.spec_draw_list().len() == 0,
    {
        Renderer { fonts: Vec::new(), atlases: Vec::new(), texts: Vec::new(), draw_list: Vec::new() }
    }

    /// Load a font from raw bytes, build its atlas, and register both under
    /// a fresh handle.  Bytes that fail the naming scan or that the font
    /// library cannot parse are invalid; given a valid font, the first
    /// requested character without a glyph decides the failure.  The call
    /// is atomic: on any failure the renderer is exactly as it was, with no
    /// partial font or atlas registered.
    pub fn load_font_from_memory(
        &mut self,
        font_size: u16,
        data: &[u8],
        char_set: &[char],
    ) -> (r: Result<usize, FontLoadingError>)
        requires
            old(self).wf(),
            char_set@.len() <= u32::MAX,
        ensures
            final(self).wf(),
            match r {
                Ok(h) => {
                    &&& font_names_ok(data@) && font_ok(data@)
                    &&& forall|k: int|
                        0 <= k < char_set@.len() ==> glyph_covered(data@, #[trigger] char_set@[k])
                    &&& h == old(self).spec_fonts().len()
                    &&& final(self).spec_fonts().len() == old(self).spec_fonts().len() + 1
                    &&& final(self).spec_fonts().subrange(
                        0,
                        old(self).spec_fonts().len() as int,
                    ) == old(self).spec_fonts()
                    &&& final(self).spec_fonts()[h as int].spec_size() == font_size
                    &&& final(self).spec_fonts()[h as int].spec_white_space() == advance_of(
                        data@,
                        ' ',
                        font_size,
                    )
                    &&& final(self).spec_fonts()[h as int].spec_glyphs().len() == char_set@.len()
                    &&& ({
                        let glyphs = final(self).spec_fonts()[h as int].spec_glyphs();
                        forall|k: int|
                            0 <= k < char_set@.len() ==> (#[trigger] glyphs[k]).character
                                == char_set@[k]
                    })
                    &&& final(self).spec_atlases().len() == final(self).spec_fonts().len()
                    &&& final(self).spec_atlases()[h as int]@.len() == 3 * crate::atlas::ATLAS_AREA
                    &&& final(self).spec_texts() == old(self).spec_texts()
                    &&& final(self).spec_draw_list() == old(self).spec_draw_list()
                },
                Err(FontLoadingError::FontInvalid) => *final(self) == *old(self) && !(
                font_names_ok(data@) && font_ok(data@)),
                Err(FontLoadingError::CharacterNotFound(c)) => {
                    &&& *final(self) == *old(self)
                    &&& font_names_ok(data@) && font_ok(data@)
                    &&& exists|i: int|
                        0 <= i < char_set@.len() && #[trigger] char_set@[i] == c
                            && !glyph_covered(data@, c) && (forall|i2: int|
                            0 <= i2 < i ==> glyph_covered(data@, #[trigger] char_set@[i2]))
                },
            },
    {
        match Typeface::load_font(font_size, data, char_set) {
            Err(e) => Err(e),
            Ok((font, atlas)) => {
                let h: usize = self.fonts.len();
                self.fonts.push(font);
                self.atlases.push(atlas);
                proof {
                    assert forall|k: int|
                        0 <= k < self.spec_draw_list().len() implies (
                        #[trigger] self.spec_draw_list()[k]).0 < self.spec_texts().len() by {
                        assert(old(self).spec_draw_list()[k].0 < old(self).spec_texts().len());
                    }
                    assert(self.spec_fonts().subrange(0, old(self).spec_fonts().len() as int)
                        =~= old(self).spec_fonts());
                }
                Ok(h)
            },
        }
    }

    /// Register an already-built typeface and its atlas under a fresh
    /// handle: what `load_font_from_memory` does once loading succeeded,
    /// available directly for callers that bring their own typeface.
    pub fn register_font(&mut self, font: Typeface, atlas: Vec<u8>) -> (h: usize)
        requires
            old(self).wf(),
        ensures
            final(self).wf(),
            h == old(self).spec_fonts().len(),
            final(self).spec_fonts() == old(self).spec_fonts().push(font),
            final(self).spec_atlases() == old(self).spec_atlases().push(atlas),
            final(self).spec_texts() == old(self).spec_texts(),
            final(self).spec_draw_list() == old(self).spec_draw_list(),
    {
        let h: usize = self.fonts.len();
        self.fonts.push(font);
        self.atlases.push(atlas);
        proof {
            assert forall|k: int|
                0 <= k < self.spec_draw_list().len() implies (#[trigger] self.spec_draw_list()[
                k]).0 < self.spec_texts().len() by {
                assert(old(self).spec_draw_list()[k].0 < old(self).spec_texts().len());
            }
        }
        h
    }

    /// The upload-ready atlas of a loaded font.
    pub fn atlas(&self, font_handle: usize) -> (r: Option<&Vec<u8>>)
        ensures
            match r {
                Some(a) => font_handle < self.spec_atlases().len() && *a == self.spec_atlases()[font_handle as int],
                None => font_handle >= self.spec_atlases().len(),
            },
    {
        if font_handle < self.atlases.len() {
            Some(&self.atlases[font_handle])
        } else {
            None
        }
    }

    /// Build a text against a registered font and register it under a fresh
    /// handle.  Fails, leaving the renderer untouched, when the handle
    /// names no font or the content holds an uncovered character.
    pub fn create_text(&mut self, font_handle: usize, position: V, content: &str) -> (r: Result<
        usize,
        TextError,
    >)
        requires
            old(self).wf(),
        ensures
            final(self).wf(),
            final(self).spec_fonts() == old(self).spec_fonts(),
            final(self).spec_atlases() == old(self).spec_atlases(),
            final(self).spec_draw_list() == old(self).spec_draw_list(),
            match r {
                Ok(h) => {
                    &&& font_handle < old(self).spec_fonts().len()
                    &&& h == old(self).spec_texts().len()
                    &&& final(self).spec_texts().len() == old(self).spec_texts().len() + 1
                    &&& final(self).spec_texts().subrange(
                        0,
                        old(self).spec_texts().len() as int,
                    ) == old(self).spec_texts()
                    &&& ({
                        let font = old(self).spec_fonts()[font_handle as int];
                        let t = final(self).spec_texts()[h as int];
                        &&& content_covered(font.spec_glyphs(), content@)
                        &&& t.spec_global() == position
                        &&& t.spec_quads() == quads_of(
                            font.spec_glyphs(),
                            font.spec_size() as int,
                            font.spec_white_space() as int,
                            content@,
                            content@.len() as int,
                        )
                    })
                },
                Err(TextError::FontNotFound) => font_handle >= old(self).spec_fonts().len()
                    && final(self).spec_texts() == old(self).spec_texts(),
                Err(TextError::CharacterNotFound(c)) => font_handle < old(self).spec_fonts().len()
                    && final(self).spec_texts() == old(self).spec_texts() && exists|i: int|
                    0 <= i < content@.len() && #[trigger] content@[i] == c && c != ' ' && c != '\n'
                        && find_glyph(
                        old(self).spec_fonts()[font_handle as int].spec_glyphs(),
                        c,
                    ) is None,
                Err(TextError::TextNotFound) => false,
            },
    {
        if font_handle >= self.fonts.len() {
            return Err(TextError::FontNotFound);
        }
        match Text::new(&self.fonts[font_handle], position, content) {
            Err(CharacterNotFound(c)) => Err(TextError::CharacterNotFound(c)),
            Ok(t) => {
                let h: usize = self.texts.len();
                self.texts.push(t);
                proof {
                    assert forall|k: int|
                        0 <= k < self.spec_draw_list().len() implies (
                        #[trigger] self.spec_draw_list()[k]).0 < self.spec_texts().len() by {
                        assert(old(self).spec_draw_list()[k].0 < old(self).spec_texts().len());
                    }
                    assert(self.spec_texts().subrange(0, old(self).spec_texts().len() as int)
                        =~= old(self).spec_texts());
                }
                Ok(h)
            },
        }
    }

    /// Queue one draw request: a registered text, a color and a world
    /// offset.  A handle that names no text is a checked, reported error.
    /// A handle may be queued several times per frame.
    pub fn draw(&mut self, text_handle: usize, color: C, position: V) -> (r: Result<
        (),
        TextError,
    >)
        requires
            old(self).wf(),
        ensures
            final(self).wf(),
            final(self).spec_fonts() == old(self).spec_fonts(),
            final(self).spec_atlases() == old(self).spec_atlases(),
            final(self).spec_texts() == old(self).spec_texts(),
            ({
                let pre = old(self).spec_draw_list();
                let post = final(self).spec_draw_list();
                match r {
                    Ok(_) => text_handle < old(self).spec_texts().len() && post == pre.push(
                        (text_handle, color, position),
                    ),
                    Err(e) => e == TextError::TextNotFound && text_handle >= old(
                        self,
                    ).spec_texts().len() && post == pre,
                }
            }),
    {
        if text_handle >= self.texts.len() {
            return Err(TextError::TextNotFound);
        }
        self.draw_list.push((text_handle, color, position));
        proof {
            assert forall|k: int|
                0 <= k < self.spec_draw_list().len() implies (#[trigger] self.spec_draw_list()[
                k]).0 < self.spec_texts().len() by {
                if k < old(self).spec_draw_list().len() {
                    assert(old(self).spec_draw_list()[k].0 < old(self).spec_texts().len());
                }
            }
        }
        Ok(())
    }
}

impl<V: Copy, C: Copy> Renderer<V, C> {
    /// Drain the frame's draw queue, in submission order, into one draw
    /// record per visible glyph.  The queue is empty afterwards; fonts and
    /// texts are untouched.
    pub fn update(&mut self) -> (r: Vec<GlyphDraw<V, C>>)
        requires
            old(self).wf(),
        ensures
            final(self).wf(),
            final(self).spec_fonts() == old(self).spec_fonts(),
            final(self).spec_atlases() == old(self).spec_atlases(),
            final(self).spec_texts() == old(self).spec_texts(),
            final(self).spec_draw_list().len() == 0,
            r@ == frame_quads(old(self).spec_texts(), old(self).spec_draw_list()),
    {
        let ghost texts0 = self.texts@;
        let ghost dl0 = self.draw_list@;
        let n: usize = self.draw_list.len();
        let mut r: Vec<GlyphDraw<V, C>> = Vec::new();
        let mut k: usize = 0;
        proof {
            assert(dl0.take(0) =~= Seq::<(usize, C, V)>::empty());
        }
        while k < n
            invariant
                texts0 == self.texts@,
                dl0 == self.draw_list@,
                n == dl0.len(),
                old(self).wf(),
                self.wf(),
                self == old(self),
                0 <= k <= n,
                r@ == frame_quads(texts0, dl0.take(k as int)),
            decreases n - k,
        {
            let ghost ki = k as int;
            let (handle, color, offset) = self.draw_list[k];
            proof {
                assert(self.spec_draw_list()[ki] == dl0[ki]);
                assert(self.spec_draw_list()[ki].0 < self.spec_texts().len());
            }
            let text = &self.texts[handle];
            let nq: usize = text.quads.len();
            let ghost r_pre = r@;
            let mut q: usize = 0;
            while q < nq
                invariant
                    texts0 == self.texts@,
                    0 <= ki < dl0.len(),
                    (handle, color, offset) == dl0[ki],
                    handle < texts0.len(),
                    text == texts0[handle as int],
                    nq == text.quads@.len(),
                    0 <= q <= nq,
                    r@.len() == r_pre.len() + q,
                    r@.subrange(0, r_pre.len() as int) == r_pre,
                    forall|q2: int|
                        0 <= q2 < q ==> r@[r_pre.len() + q2] == (GlyphDraw {
                            offset,
                            color,
                            quad: text.quads@[q2],
                        }),
                decreases nq - q,
            {
                r.push(GlyphDraw { offset, color, quad: text.quads[q] });
                proof {
                    assert(r@.subrange(0, r_pre.len() as int) =~= r_pre);
                }
                q = q + 1;
            }
            proof {
                assert(dl0.take(ki + 1).drop_last() =~= dl0.take(ki));
                assert(dl0.take(ki + 1).last() == dl0[ki]);
                assert(r@ =~= frame_quads(texts0, dl0.take(ki)) + entry_quads(texts0, dl0[ki]));
            }
            k = k + 1;
        }
        self.draw_list.clear();
        proof {
            assert(dl0.take(n as int) =~= dl0);
        }
        r
    }
}

} // verus!
