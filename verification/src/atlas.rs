//! Glyph atlas builder: rasterize a requested character set at a fixed
//! pixel size and place the bitmaps into one square coverage atlas with
//! shelf (row) packing.  Rasterization itself is the font library's work,
//! behind trusted wrappers; the shelf placement, the blitting and the
//! channel expansion are verified.

use vstd::prelude::*;

use crate::fontscan::{font_names_ok, font_names_safe};

verus! {

/// Side of the square atlas, in texels, fixed across fonts.
pub const ATLAS_SIZE: usize = 1024;

/// Texels left empty after each glyph in a shelf, preventing bleed from
/// linear filtering.
pub const ATLAS_PADDING: usize = 2;

/// The fixed atlas area.
pub const ATLAS_AREA: usize = 1048576;

/// A glyph bitmap with its metrics, as rasterization returns it: a
/// row-major coverage bitmap of `width * height` bytes, starting at the
/// top-left corner, plus the advance and bearing in whole pixels.
pub struct RasterGlyph {
    pub character: char,
    pub width: usize,
    pub height: usize,
    pub advance: i32,
    pub bearing_x: i32,
    pub bearing_y: i32,
    pub bitmap: Vec<u8>,
}

/// One packed glyph: its atlas position and extent in texels, its pixel
/// metrics, advance and bearing offset.
#[derive(Clone, Copy, Debug)]
pub struct Glyph {
    pub character: char,
    pub atlas_x: usize,
    pub atlas_y: u64,
    pub width: usize,
    pub height: usize,
    pub advance: i32,
    pub bearing_x: i32,
    pub bearing_y: i32,
}

/// Errors of font loading: a byte buffer that is no font, or a requested
/// character the font has no glyph for.  Loading is atomic: on any error no
/// partial font or atlas is returned.
#[derive(Clone, Copy, Debug, PartialEq, Eq, Structural)]
pub enum FontLoadingError {
    CharacterNotFound(char),
    FontInvalid,
}

#[verifier::external_type_specification]
#[verifier::external_body]
pub struct ExFontdueFont(fontdue::Font);

/// A parsed font together with the bytes it was parsed from, so that
/// contracts can speak of glyph coverage and advances as functions of
/// those bytes.  Built only by `font_from_bytes`; the wrappers' contracts
/// rely on `src` holding exactly the bytes `inner` was parsed from.  The
/// value lives only while a font is loaded.
struct ParsedFont {
    inner: fontdue::Font,
    src: Vec<u8>,
}

/// Whether the font library accepts these bytes as a font.  Parsing is
/// deterministic in the bytes.
pub uninterp spec fn font_ok(data: Seq<u8>) -> bool;

/// Whether the font parsed from these bytes carries a glyph of its own for
/// `c` (rather than falling back to the missing-glyph shape).
pub uninterp spec fn glyph_covered(data: Seq<u8>, c: char) -> bool;

/// Horizontal advance, in whole pixels, of `c` at pixel size `px` in the
/// font parsed from these bytes.
pub uninterp spec fn advance_of(data: Seq<u8>, c: char, px: u16) -> i32;

/// Relies on fontdue::Font::from_bytes: parses a font asset, or reports
/// that the bytes are not a valid font.  Parsing decodes the font's
/// Unicode name through an unchecked UTF-16 reader, so callers must first
/// establish `font_names_ok`, which rules out the byte patterns that
/// reader cannot take.
#[verifier::external_body]
fn font_from_bytes(data: &[u8]) -> (r: Option<ParsedFont>)
    requires
        font_names_ok(data@),
    ensures
        match r {
            Some(f) => f.src@ == data@ && font_ok(data@),
            None => !font_ok(data@),
        },
{
    match fontdue::Font::from_bytes(data, fontdue::FontSettings::default()) {
        Ok(f) => Some(ParsedFont { inner: f, src: data.to_vec() }),
        Err(_) => None,
    }
}

/// Relies on fontdue::Font::has_glyph: whether the font maps the character
/// to a glyph of its own (rather than the fallback glyph).  The answer is
/// a function of the font bytes and the character.
#[verifier::external_body]
fn font_has_glyph(font: &ParsedFont, c: char) -> (r: bool)
    ensures
        r == glyph_covered(font.src@, c),
{
    font.inner.has_glyph(c)
}

/// Relies on fontdue::Font::rasterize: the returned coverage bitmap is
/// row-major, top-left first, and holds exactly `width * height` bytes.
/// The advance is truncated to whole pixels; the bearing offsets are whole
/// pixels already.
#[verifier::external_body]
fn rasterize_glyph(font: &ParsedFont, c: char, px: u16) -> (r: RasterGlyph)
    ensures
        r.character == c,
        r.bitmap@.len() == r.width * r.height,
{
    let (metrics, bitmap) = font.inner.rasterize(c, px.into());
    RasterGlyph {
        character: c,
        width: metrics.width,
        height: metrics.height,
        advance: metrics.advance_width as i32,
        bearing_x: metrics.xmin,
        bearing_y: metrics.ymin,
        bitmap,
    }
}

/// Relies on fontdue::Font::metrics: the horizontal advance of a
/// character, truncated to whole pixels.  The advance is a function of the
/// font bytes, the character and the pixel size.
#[verifier::external_body]
fn char_advance(font: &ParsedFont, c: char, px: u16) -> (r: i32)
    ensures
        r == advance_of(font.src@, c, px),
{
    font.inner.metrics(c, px.into()).advance_width as i32
}

/// The widths of a glyph list, as mathematical integers.
pub open spec fn glyph_widths(gs: Seq<RasterGlyph>) -> Seq<int> {
    gs.map_values(|g: RasterGlyph| g.width as int)
}

/// One wrap step of shelf packing: when the glyph does not fit on the
/// current shelf, the pen returns to the left edge and drops one shelf —
/// one nominal font size — down.
pub open spec fn wrap_pen(pen: (int, int), w: int, fs: int) -> (int, int) {
    if pen.0 + w > ATLAS_SIZE {
        (0, pen.1 + fs)
    } else {
        pen
    }
}

/// Pen cursor before glyph `i` is placed: the previous glyph's position
/// advanced by its width plus the fixed padding.
pub open spec fn shelf_pen(ws: Seq<int>, fs: int, i: int) -> (int, int)
    decreases i,
{
    if i <= 0 {
        (0, 0)
    } else {
        let prev = wrap_pen(shelf_pen(ws, fs, i - 1), ws[i - 1], fs);
        (prev.0 + ws[i - 1] + ATLAS_PADDING, prev.1)
    }
}

/// Position glyph `i` is blitted at: the pen, wrapped to a new shelf
/// exactly when `pen_x + width` exceeds the atlas side.
pub open spec fn shelf_place(ws: Seq<int>, fs: int, i: int) -> (int, int) {
    wrap_pen(shelf_pen(ws, fs, i), ws[i], fs)
}

/// One glyph blitted over an atlas: every texel inside the glyph's
/// rectangle takes the bitmap's byte, every other texel keeps its value.
/// Rows and columns falling outside the square are clipped, never written.
pub open spec fn blit_one(
    atlas: Seq<u8>,
    bmp: Seq<u8>,
    w: int,
    h: int,
    px: int,
    py: int,
) -> Seq<u8> {
    Seq::new(
        atlas.len(),
        |p: int|
            {
                let y = p / (ATLAS_SIZE as int);
                let x = p % (ATLAS_SIZE as int);
                if px <= x < px + w && py <= y < py + h {
                    bmp[(y - py) * w + (x - px)]
                } else {
                    atlas[p]
                }
            },
    )
}

/// The empty coverage atlas.
pub open spec fn zero_atlas() -> Seq<u8> {
    Seq::new(ATLAS_AREA as nat, |p: int| 0u8)
}

/// The atlas after the first `i` glyphs are shelf-placed and blitted, in
/// order, over an initially black atlas.
pub open spec fn blit_all(gs: Seq<RasterGlyph>, fs: int, i: int) -> Seq<u8>
    decreases i,
{
    if i <= 0 {
        zero_atlas()
    } else {
        let pl = shelf_place(glyph_widths(gs), fs, i - 1);
        blit_one(
            blit_all(gs, fs, i - 1),
            gs[i - 1].bitmap@,
            gs[i - 1].width as int,
            gs[i - 1].height as int,
            pl.0,
            pl.1,
        )
    }
}

/// The packed record of glyph `i`: its shelf position plus the raster
/// metrics carried over unchanged.
pub open spec fn glyph_record(gs: Seq<RasterGlyph>, fs: int, i: int) -> Glyph {
    let pl = shelf_place(glyph_widths(gs), fs, i);
    Glyph {
        character: gs[i].character,
        atlas_x: pl.0 as usize,
        atlas_y: pl.1 as u64,
        width: gs[i].width,
        height: gs[i].height,
        advance: gs[i].advance,
        bearing_x: gs[i].bearing_x,
        bearing_y: gs[i].bearing_y,
    }
}

/// Every raster glyph fits the atlas side and carries a bitmap of exactly
/// `width * height` bytes.
pub open spec fn glyphs_wf(gs: Seq<RasterGlyph>) -> bool {
    forall|k: int|
        0 <= k < gs.len() ==> (#[trigger] gs[k]).width <= ATLAS_SIZE && gs[k].bitmap@.len()
            == gs[k].width * gs[k].height
}

/// Shelf packing never leaves the square horizontally: the pen's column
/// stays non-negative, and a glyph no wider than the atlas is always
/// placed so that it ends at or before the right edge.  The shelf row
/// never exceeds one font size per glyph placed.
pub proof fn lemma_shelf_in_bounds(ws: Seq<int>, fs: int, i: int)
    requires
        0 <= fs,
        0 <= i < ws.len(),
        forall|k: int| 0 <= k < ws.len() ==> 0 <= #[trigger] ws[k] <= ATLAS_SIZE,
    ensures
        0 <= shelf_place(ws, fs, i).0,
        shelf_place(ws, fs, i).0 + ws[i] <= ATLAS_SIZE,
        0 <= shelf_pen(ws, fs, i).0 <= ATLAS_SIZE + ATLAS_PADDING,
        0 <= shelf_pen(ws, fs, i).1 <= i * fs,
        0 <= shelf_place(ws, fs, i).1 <= (i + 1) * fs,
    decreases i,
{
    if i > 0 {
        lemma_shelf_in_bounds(ws, fs, i - 1);
    }
    assert(i * fs + fs == (i + 1) * fs) by (nonlinear_arith);
    assert(0 <= i * fs) by (nonlinear_arith)
        requires
            0 <= i,
            0 <= fs,
    ;
}

/// Blit one clipped glyph rectangle into the atlas.
fn blit(atlas: &mut Vec<u8>, bmp: &Vec<u8>, w: usize, h: usize, px: usize, py: u64)
    requires
        old(atlas)@.len() == ATLAS_AREA,
        px + w <= ATLAS_SIZE,
        bmp@.len() == w * h,
    ensures
        final(atlas)@ == blit_one(old(atlas)@, bmp@, w as int, h as int, px as int, py as int),
{
    let ghost pyi = py as int;
    let ghost pxi = px as int;
    let bl: usize = bmp.len();
    let ymax: usize = if py >= 1024 {
        0
    } else {
        let room: usize = 1024 - (py as usize);
        if h < room {
            h
        } else {
            room
        }
    };
    let mut y: usize = 0;
    while y < ymax
        invariant
            atlas@.len() == ATLAS_AREA,
            px + w <= ATLAS_SIZE,
            bmp@.len() == w * h,
            pyi == py as int,
            pxi == px as int,
            bl == bmp@.len(),
            0 <= y <= ymax,
            ymax <= h,
            py < 1024 ==> pyi + ymax <= 1024,
            py < 1024 ==> ymax == (if h < 1024 - pyi { h as int } else { 1024 - pyi }),
            py >= 1024 ==> ymax == 0,
            forall|p: int|
                0 <= p < ATLAS_AREA ==> #[trigger] atlas@[p] == {
                    let yy = p / 1024;
                    let xx = p % 1024;
                    if pxi <= xx < pxi + w && pyi <= yy < pyi + y {
                        bmp@[(yy - pyi) * w as int + (xx - pxi)]
                    } else {
                        old(atlas)@[p]
                    }
                },
        decreases ymax - y,
    {
        let yy: usize = (py as usize) + y;
        let row_base: usize = yy * 1024;
        let mut x: usize = 0;
        while x < w
            invariant
                atlas@.len() == ATLAS_AREA,
                px + w <= ATLAS_SIZE,
                bmp@.len() == w * h,
                pyi == py as int,
                pxi == px as int,
                0 <= y < ymax <= h,
                pyi + ymax <= 1024,
                bl == bmp@.len(),
                yy == pyi + y,
                row_base == yy * 1024,
                0 <= x <= w,
                forall|p: int|
                    0 <= p < ATLAS_AREA ==> #[trigger] atlas@[p] == {
                        let yy2 = p / 1024;
                        let xx = p % 1024;
                        if pxi <= xx < pxi + w && pyi <= yy2 < pyi + y {
                            bmp@[(yy2 - pyi) * w as int + (xx - pxi)]
                        } else if yy2 == pyi + y && pxi <= xx < pxi + x {
                            bmp@[(yy2 - pyi) * w as int + (xx - pxi)]
                        } else {
                            old(atlas)@[p]
                        }
                    },
            decreases w - x,
        {
            proof {
                assert(y * w + x < h * w && 0 <= y * w + x && h * w == w * h)
                    by (nonlinear_arith)
                    requires
                        0 <= x < w,
                        0 <= y < h,
                ;
            }
            let v: u8 = bmp[y * w + x];
            let idx: usize = row_base + px + x;
            proof {
                assert(row_base + 1024 <= ATLAS_AREA) by (nonlinear_arith)
                    requires
                        row_base == (pyi + y) * 1024,
                        0 <= pyi + y < 1024,
                ;
            }
            atlas.set(idx, v);
            proof {
                vstd::arithmetic::div_mod::lemma_fundamental_div_mod_converse(
                    idx as int,
                    1024,
                    pyi + y,
                    pxi + x,
                );
                assert forall|p: int| 0 <= p < ATLAS_AREA implies #[trigger] atlas@[p] == {
                    let yy2 = p / 1024;
                    let xx = p % 1024;
                    if pxi <= xx < pxi + w && pyi <= yy2 < pyi + y {
                        bmp@[(yy2 - pyi) * w as int + (xx - pxi)]
                    } else if yy2 == pyi + y && pxi <= xx < pxi + x + 1 {
                        bmp@[(yy2 - pyi) * w as int + (xx - pxi)]
                    } else {
                        old(atlas)@[p]
                    }
                } by {
                    let yy2 = p / 1024;
                    let xx = p % 1024;
                    vstd::arithmetic::div_mod::lemma_fundamental_div_mod(p, 1024);
                    if p == idx as int {
                        assert(yy2 == pyi + y && xx == pxi + x);
                        assert(atlas@[p] == bmp@[y * w as int + x]);
                    }
                }
            }
            x = x + 1;
        }
        proof {
            assert forall|p: int| 0 <= p < ATLAS_AREA implies #[trigger] atlas@[p] == {
                let yy2 = p / 1024;
                let xx = p % 1024;
                if pxi <= xx < pxi + w && pyi <= yy2 < pyi + (y + 1) {
                    bmp@[(yy2 - pyi) * w as int + (xx - pxi)]
                } else {
                    old(atlas)@[p]
                }
            } by {
                vstd::arithmetic::div_mod::lemma_fundamental_div_mod(p, 1024);
            }
        }
        y = y + 1;
    }
    proof {
        let b1 = blit_one(old(atlas)@, bmp@, w as int, h as int, pxi, pyi);
        assert forall|p: int| 0 <= p < ATLAS_AREA implies atlas@[p] == b1[p] by {
            let yy2 = p / 1024;
            let xx = p % 1024;
            vstd::arithmetic::div_mod::lemma_fundamental_div_mod(p, 1024);
            vstd::arithmetic::div_mod::lemma_div_pos_is_pos(p, 1024);
            assert(yy2 < 1024) by (nonlinear_arith)
                requires
                    0 <= p < ATLAS_AREA,
                    yy2 == p / 1024,
                    p == 1024 * yy2 + p % 1024,
                    0 <= p % 1024 < 1024,
            ;
            if pxi <= xx < pxi + w && pyi <= yy2 < pyi + h {
                assert(yy2 < pyi + ymax);
            }
        }
        assert(atlas@ =~= b1);
    }
}

/// Shelf-pack rasterized glyphs into a fresh square coverage atlas.  Glyphs
/// go left to right along a shelf; when one would pass the right edge the
/// pen wraps to a new shelf one nominal font size down.  The shelf height
/// is the nominal size, not the tallest glyph: tall glyphs may reach into
/// the next shelf, and rows beyond the square are clipped.
pub fn pack_glyphs(font_size: u16, glyphs: &Vec<RasterGlyph>) -> (r: (Vec<Glyph>, Vec<u8>))
    requires
        glyphs@.len() <= u32::MAX,
        glyphs_wf(glyphs@),
    ensures
        r.0@.len() == glyphs@.len(),
        forall|k: int|
            0 <= k < glyphs@.len() ==> #[trigger] r.0@[k] == glyph_record(
                glyphs@,
                font_size as int,
                k,
            ),
        r.1@ == blit_all(glyphs@, font_size as int, glyphs@.len() as int),
        r.1@.len() == ATLAS_AREA,
{
    let ghost fs = font_size as int;
    let ghost ws = glyph_widths(glyphs@);
    let n: usize = glyphs.len();
    let mut atlas: Vec<u8> = alloc_atlas();
    let mut out: Vec<Glyph> = Vec::new();
    let mut pen_x: usize = 0;
    let mut pen_y: u64 = 0;
    let mut i: usize = 0;
    proof {
        assert(atlas@ =~= blit_all(glyphs@, fs, 0));
    }
    while i < n
        invariant
            n == glyphs@.len(),
            n <= u32::MAX,
            glyphs_wf(glyphs@),
            fs == font_size as int,
            ws == glyph_widths(glyphs@),
            0 <= i <= n,
            out@.len() == i,
            forall|k: int| 0 <= k < i ==> #[trigger] out@[k] == glyph_record(glyphs@, fs, k),
            atlas@.len() == ATLAS_AREA,
            atlas@ == blit_all(glyphs@, fs, i as int),
            (pen_x as int, pen_y as int) == shelf_pen(ws, fs, i as int),
        decreases n - i,
    {
        let ghost ii = i as int;
        proof {
            lemma_shelf_in_bounds(ws, fs, ii);
            assert(ws[ii] == glyphs@[ii].width as int);
            assert(ii * fs <= n as int * fs && (ii + 1) * fs <= n as int * fs)
                by (nonlinear_arith)
                requires
                    0 <= ii < n as int,
                    0 <= fs,
            ;
            assert(n as int * fs <= 0xffff_ffff * 0x1_0000) by (nonlinear_arith)
                requires
                    0 <= n as int <= 0xffff_ffff,
                    0 <= fs <= 0xffff,
            ;
        }
        let g = &glyphs[i];
        if pen_x + g.width > ATLAS_SIZE {
            pen_x = 0;
            pen_y = pen_y + font_size as u64;
        }
        proof {
            assert((pen_x as int, pen_y as int) == shelf_place(ws, fs, ii));
        }
        blit(&mut atlas, &g.bitmap, g.width, g.height, pen_x, pen_y);
        proof {
            assert(atlas@ == blit_all(glyphs@, fs, ii + 1));
        }
        out.push(
            Glyph {
                character: g.character,
                atlas_x: pen_x,
                atlas_y: pen_y,
                width: g.width,
                height: g.height,
                advance: g.advance,
                bearing_x: g.bearing_x,
                bearing_y: g.bearing_y,
            },
        );
        pen_x = pen_x + g.width + ATLAS_PADDING;
        i = i + 1;
    }
    (out, atlas)
}

/// A fresh, black atlas.
fn alloc_atlas() -> (r: Vec<u8>)
    ensures
        r@ == zero_atlas(),
{
    let mut r: Vec<u8> = Vec::new();
    let mut i: usize = 0;
    while i < ATLAS_AREA
        invariant
            0 <= i <= ATLAS_AREA,
            r@.len() == i,
            forall|k: int| 0 <= k < i ==> #[trigger] r@[k] == 0,
        decreases ATLAS_AREA - i,
    {
        r.push(0);
        i = i + 1;
    }
    proof {
        assert(r@ =~= zero_atlas());
    }
    r
}

/// Replicate single-channel coverage into three channels for upload as an
/// RGB texture.
pub fn expand_rgb(atlas: &Vec<u8>) -> (r: Vec<u8>)
    ensures
        r@.len() == 3 * atlas@.len(),
        forall|p: int| 0 <= p < r@.len() ==> #[trigger] r@[p] == atlas@[p / 3],
{
    let n: usize = atlas.len();
    let mut r: Vec<u8> = Vec::new();
    let mut i: usize = 0;
    while i < n
        invariant
            n == atlas@.len(),
            0 <= i <= n,
            r@.len() == 3 * i,
            forall|p: int| 0 <= p < 3 * i ==> #[trigger] r@[p] == atlas@[p / 3],
        decreases n - i,
    {
        let v: u8 = atlas[i];
        r.push(v);
        r.push(v);
        r.push(v);
        proof {
            assert forall|p: int| 0 <= p < 3 * (i + 1) implies #[trigger] r@[p] == atlas@[p
                / 3] by {
                if p >= 3 * i {
                    vstd::arithmetic::div_mod::lemma_fundamental_div_mod_converse(
                        p,
                        3,
                        i as int,
                        p - 3 * i,
                    );
                }
            }
        }
        i = i + 1;
    }
    r
}

/// A loaded typeface ready for text layout: one packed glyph per requested character,
/// the nominal pixel size, and the measured whitespace advance.
pub struct Typeface {
    glyphs: Vec<Glyph>,
    size: u16,
    white_space: i32,
}

impl Typeface {
    /// A typeface from already-packed glyphs: what `load_font` builds once
    /// rasterization and packing are done, available directly for callers
    /// that bring their own glyph metrics.
    pub fn from_parts(glyphs: Vec<Glyph>, size: u16, white_space: i32) -> (r: Typeface)
        ensures
            r.spec_glyphs() == glyphs@,
            r.spec_size() == size,
            r.spec_white_space() == white_space,
    {
        Typeface { glyphs, size, white_space }
    }

    /// The packed glyphs, in request order.
    pub closed spec fn spec_glyphs(self) -> Seq<Glyph> {
        self.glyphs@
    }

    /// The nominal pixel size.
    pub closed spec fn spec_size(self) -> u16 {
        self.size
    }

    /// The whitespace advance, in pixels.
    pub closed spec fn spec_white_space(self) -> i32 {
        self.white_space
    }

    /// The nominal pixel size.
    pub fn size(&self) -> (r: u16)
        ensures
            r == self.spec_size(),
    {
        self.size
    }

    /// The whitespace advance, in pixels.
    pub fn white_space(&self) -> (r: i32)
        ensures
            r == self.spec_white_space(),
    {
        self.white_space
    }

    /// First-match lookup of a packed glyph by character.
    pub fn glyph(&self, c: char) -> (r: Option<&Glyph>)
        ensures
            match r {
                Some(g) => find_glyph(self.spec_glyphs(), c) == Some(*g),
                None => find_glyph(self.spec_glyphs(), c) is None,
            },
    {
        let n: usize = self.glyphs.len();
        let mut i: usize = 0;
        proof {
            assert(self.glyphs@.skip(0) =~= self.glyphs@);
        }
        while i < n
            invariant
                n == self.glyphs@.len(),
                0 <= i <= n,
                find_glyph(self.glyphs@, c) == find_glyph(self.glyphs@.skip(i as int), c),
            decreases n - i,
        {
            proof {
                assert(self.glyphs@.skip(i as int).first() == self.glyphs@[i as int]);
                assert(self.glyphs@.skip(i as int).drop_first() =~= self.glyphs@.skip(i as int + 1));
            }
            if self.glyphs[i].character == c {
                return Some(&self.glyphs[i]);
            }
            i = i + 1;
        }
        proof {
            assert(self.glyphs@.skip(n as int).len() == 0);
        }
        None
    }

    /// Load a font from raw bytes and build its glyph atlas for the given
    /// character set at the given pixel size.  Bytes that fail the naming
    /// scan or that the font library cannot parse are invalid, exactly;
    /// given a valid font, the call fails with the first requested
    /// character the font has no glyph for, exactly; the call is atomic:
    /// on any error no partial font or atlas exists.  On success the
    /// returned glyphs carry the requested characters in request order,
    /// placed by shelf packing, the whitespace advance is the advance of
    /// the space character, and the atlas is the single-channel coverage
    /// replicated into three channels.
    pub fn load_font(font_size: u16, data: &[u8], char_set: &[char]) -> (r: Result<
        (Typeface, Vec<u8>),
        FontLoadingError,
    >)
        requires
            char_set@.len() <= u32::MAX,
        ensures
            match r {
                Ok((font, atlas)) => {
                    &&& font_names_ok(data@) && font_ok(data@)
                    &&& forall|k: int|
                        0 <= k < char_set@.len() ==> glyph_covered(data@, #[trigger] char_set@[k])
                    &&& font.spec_size() == font_size
                    &&& font.spec_white_space() == advance_of(data@, ' ', font_size)
                    &&& font.spec_glyphs().len() == char_set@.len()
                    &&& forall|k: int|
                        0 <= k < char_set@.len() ==> (#[trigger] font.spec_glyphs()[k]).character
                            == char_set@[k]
                    &&& glyphs_shelf_placed(font.spec_glyphs(), font_size as int)
                    &&& atlas@.len() == 3 * ATLAS_AREA
                    &&& forall|p: int|
                        0 <= p < atlas@.len() ==> #[trigger] atlas@[p] == atlas@[3 * (p / 3)]
                    &&& exists|rs: Seq<RasterGlyph>|
                        {
                            &&& #[trigger] glyphs_wf(rs)
                            &&& rs.len() == char_set@.len()
                            &&& forall|k: int|
                                0 <= k < rs.len() ==> #[trigger] font.spec_glyphs()[k]
                                    == glyph_record(rs, font_size as int, k)
                            &&& forall|p: int|
                                0 <= p < atlas@.len() ==> #[trigger] atlas@[p] == blit_all(
                                    rs,
                                    font_size as int,
                                    rs.len() as int,
                                )[p / 3]
                        }
                },
                Err(FontLoadingError::CharacterNotFound(c)) => {
                    &&& font_names_ok(data@) && font_ok(data@)
                    &&& exists|i: int|
                        0 <= i < char_set@.len() && #[trigger] char_set@[i] == c
                            && !glyph_covered(data@, c) && (forall|i2: int|
                            0 <= i2 < i ==> glyph_covered(data@, #[trigger] char_set@[i2]))
                },
                Err(FontLoadingError::FontInvalid) => !(font_names_ok(data@) && font_ok(data@)),
            },
    {
        if !font_names_safe(data) {
            return Err(FontLoadingError::FontInvalid);
        }
        let font = match font_from_bytes(data) {
            Some(f) => f,
            None => {
                return Err(FontLoadingError::FontInvalid);
            },
        };
        let white_space = char_advance(&font, ' ', font_size);

        let n: usize = char_set.len();
        let mut rasters: Vec<RasterGlyph> = Vec::new();
        let mut i: usize = 0;
        while i < n
            invariant
                n == char_set@.len(),
                n <= u32::MAX,
                font.src@ == data@,
                font_names_ok(data@),
                font_ok(data@),
                0 <= i <= n,
                rasters@.len() == i,
                forall|k: int|
                    0 <= k < i ==> (#[trigger] rasters@[k]).character == char_set@[k],
                forall|k: int| 0 <= k < i ==> glyph_covered(data@, #[trigger] char_set@[k]),
                glyphs_wf(rasters@),
            decreases n - i,
        {
            let c = char_set[i];
            if !font_has_glyph(&font, c) {
                return Err(FontLoadingError::CharacterNotFound(c));
            }
            let rg = rasterize_glyph(&font, c, font_size);
            let rg = clip_raster(rg);
            rasters.push(rg);
            i = i + 1;
        }

        let (glyphs, coverage) = pack_glyphs(font_size, &rasters);
        let atlas = expand_rgb(&coverage);
        proof {
            assert forall|k: int|
                0 <= k < char_set@.len() implies (#[trigger] glyphs@[k]).character
                == char_set@[k] by {
                assert(glyphs@[k] == glyph_record(rasters@, font_size as int, k));
            }
            assert forall|k: int|
                0 <= k < glyphs@.len() implies ((#[trigger] glyphs@[k]).atlas_x as int,
            glyphs@[k].atlas_y as int) == shelf_place(
                glyph_widths_packed(glyphs@),
                font_size as int,
                k,
            ) by {
                let ws2 = glyph_widths(rasters@);
                let fs = font_size as int;
                assert forall|k2: int| 0 <= k2 < ws2.len() implies 0 <= #[trigger] ws2[k2]
                    <= ATLAS_SIZE by {
                    assert(ws2[k2] == rasters@[k2].width as int);
                }
                lemma_shelf_in_bounds(ws2, fs, k);
                assert((k + 1) * fs <= rasters@.len() as int * fs && rasters@.len() as int * fs
                    <= 0xffff_ffff * 0x1_0000) by (nonlinear_arith)
                    requires
                        0 <= k < rasters@.len() as int,
                        rasters@.len() as int <= 0xffff_ffff,
                        0 <= fs <= 0xffff,
                ;
                assert(glyphs@[k] == glyph_record(rasters@, fs, k));
                assert(glyph_widths_packed(glyphs@) =~= glyph_widths(rasters@));
            }
            assert forall|p: int| 0 <= p < atlas@.len() implies #[trigger] atlas@[p] == atlas@[3 * (
            p / 3)] by {
                vstd::arithmetic::div_mod::lemma_fundamental_div_mod(p, 3);
                assert(atlas@[p] == coverage@[p / 3]);
                assert((3 * (p / 3)) / 3 == p / 3) by (nonlinear_arith);
                assert(atlas@[3 * (p / 3)] == coverage@[(3 * (p / 3)) / 3]);
            }
            // the rasterized glyph list witnesses how the atlas was built
            assert(glyphs_wf(rasters@));
            assert forall|p: int| 0 <= p < atlas@.len() implies #[trigger] atlas@[p] == blit_all(
                rasters@,
                font_size as int,
                rasters@.len() as int,
            )[p / 3] by {
                assert(atlas@[p] == coverage@[p / 3]);
            }
        }
        Ok((Typeface { glyphs, size: font_size, white_space }, atlas))
    }
}

/// Cap a raster glyph's width at the atlas side, dropping the bitmap of one
/// that could never be placed.  Rasterized glyphs are far smaller than the
/// atlas; this keeps the packer total without trusting that.
fn clip_raster(rg: RasterGlyph) -> (r: RasterGlyph)
    ensures
        r.character == rg.character,
        r.width <= ATLAS_SIZE,
        r.bitmap@.len() == r.width * r.height,
        rg.width <= ATLAS_SIZE && rg.bitmap@.len() == rg.width * rg.height ==> r == rg,
{
    let bl: usize = rg.bitmap.len();
    let area_ok: bool = match rg.width.checked_mul(rg.height) {
        Some(a) => bl == a,
        None => false,
    };
    if rg.width <= ATLAS_SIZE && area_ok {
        rg
    } else {
        RasterGlyph {
            character: rg.character,
            width: 0,
            height: 0,
            advance: rg.advance,
            bearing_x: rg.bearing_x,
            bearing_y: rg.bearing_y,
            bitmap: Vec::new(),
        }
    }
}

/// The widths of packed glyph records, as mathematical integers.
pub open spec fn glyph_widths_packed(gs: Seq<Glyph>) -> Seq<int> {
    gs.map_values(|g: Glyph| g.width as int)
}

/// Packed glyphs stand where shelf packing over their own widths puts
/// them: the row wraps exactly when a glyph would pass the right edge.
pub open spec fn glyphs_shelf_placed(gs: Seq<Glyph>, fs: int) -> bool {
    forall|k: int|
        0 <= k < gs.len() ==> ((#[trigger] gs[k]).atlas_x as int, gs[k].atlas_y as int)
            == shelf_place(glyph_widths_packed(gs), fs, k)
}

/// First glyph of `gs` whose character is `c`, if any.
pub open spec fn find_glyph(gs: Seq<Glyph>, c: char) -> Option<Glyph>
    decreases gs.len(),
{
    if gs.len() == 0 {
        None
    } else if gs.first().character == c {
        Some(gs.first())
    } else {
        find_glyph(gs.drop_first(), c)
    }
}

} // verus!
