//! Drawing OSD glyphs onto video frames: the character size that suits a
//! frame, where each glyph of a frame is drawn, and alpha blending of one
//! RGBA image onto another.
use vstd::prelude::*;
use crate::frame::Glyph;

verus! {

/// Size class of the OSD font characters.
#[derive(Clone, Copy, Debug, PartialEq, Eq, Structural)]
pub enum CharacterSize {
    Race,
    Small,
    Large,
    XLarge,
    Ultra,
}

/// The frame is narrower than 3:2 (`width / height < 1.5`).
pub open spec fn is_narrow(width: u32, height: u32) -> bool {
    2 * width < 3 * height
}

/// The character size for a frame of `width` x `height` pixels: by height,
/// 540 lines take `Race`, 720 `Small`, 1080 `Small` when narrower than 3:2
/// and `Large` otherwise, 1440 `Large` when narrower than 3:2 and `XLarge`
/// otherwise, 2160 `Ultra`, and every other height `Large`.
pub open spec fn character_size_for(width: u32, height: u32) -> CharacterSize {
    if height == 540 {
        CharacterSize::Race
    } else if height == 720 {
        CharacterSize::Small
    } else if height == 1080 {
        if is_narrow(width, height) {
            CharacterSize::Small
        } else {
            CharacterSize::Large
        }
    } else if height == 1440 {
        if is_narrow(width, height) {
            CharacterSize::Large
        } else {
            CharacterSize::XLarge
        }
    } else if height == 2160 {
        CharacterSize::Ultra
    } else {
        CharacterSize::Large
    }
}

/// Picks the character size for a frame (see `character_size_for`).
///
/// The aspect test `width / height < 1.5` only matters for heights 1080 and
/// 1440; there it is decided exactly by `2 * width < 3 * height`: the
/// nearest integer widths below the bound (1619 and 2159) give ratios
/// about 1e-3 under 1.5, far from any single-precision rounding.
pub fn get_character_size(width: u32, height: u32) -> (size: CharacterSize)
    ensures
        size == character_size_for(width, height),
{
    let is_4_3 = 2 * (width as u64) < 3 * (height as u64);
    match height {
        540 => CharacterSize::Race,
        720 => CharacterSize::Small,
        1080 => {
            if is_4_3 {
                CharacterSize::Small
            } else {
                CharacterSize::Large
            }
        },
        1440 => {
            if is_4_3 {
                CharacterSize::Large
            } else {
                CharacterSize::XLarge
            }
        },
        2160 => CharacterSize::Ultra,
        _ => CharacterSize::Large,
    }
}

/// Rank of a character size, from the smallest (`Race`) to the largest
/// (`Ultra`).
pub open spec fn size_rank(size: CharacterSize) -> int {
    match size {
        CharacterSize::Race => 0,
        CharacterSize::Small => 1,
        CharacterSize::Large => 2,
        CharacterSize::XLarge => 3,
        CharacterSize::Ultra => 4,
    }
}

/// The character size by frame height: 540 lines take `Race`, 720 lines
/// `Small` and 2160 lines `Ultra` whatever the width; 1080 lines take
/// `Small` when the frame is narrower than 3:2 (`2 * width < 3240`) and
/// `Large` otherwise; 1440 lines `Large` when narrower than 3:2
/// (`2 * width < 4320`) and `XLarge` otherwise; every other height `Large`.
pub proof fn law_character_size_by_height(width: u32, height: u32)
    ensures
        height == 540 ==> character_size_for(width, height) == CharacterSize::Race,
        height == 720 ==> character_size_for(width, height) == CharacterSize::Small,
        height == 2160 ==> character_size_for(width, height) == CharacterSize::Ultra,
        height == 1080 && 2 * width < 3240 ==> character_size_for(width, height)
            == CharacterSize::Small,
        height == 1080 && 2 * width >= 3240 ==> character_size_for(width, height)
            == CharacterSize::Large,
        height == 1440 && 2 * width < 4320 ==> character_size_for(width, height)
            == CharacterSize::Large,
        height == 1440 && 2 * width >= 4320 ==> character_size_for(width, height)
            == CharacterSize::XLarge,
        height != 540 && height != 720 && height != 1080 && height != 1440 && height != 2160
            ==> character_size_for(width, height) == CharacterSize::Large,
{
}

/// Only at heights 1080 and 1440 does the width matter, and there a wider
/// frame never gets smaller characters.
pub proof fn law_character_size_width(w1: u32, w2: u32, height: u32)
    ensures
        height != 1080 && height != 1440 ==> character_size_for(w1, height) == character_size_for(
            w2,
            height,
        ),
        w1 <= w2 ==> size_rank(character_size_for(w1, height)) <= size_rank(
            character_size_for(w2, height),
        ),
{
}

/// Where one glyph of an OSD frame is drawn: its font character and the
/// pixel position of its top-left corner.
#[derive(Clone, Copy, Debug, PartialEq, Eq, Structural)]
pub struct GlyphPlacement {
    pub index: u16,
    pub x: i32,
    pub y: i32,
}

/// `v` is a value of `i32`.
pub open spec fn fits_i32(v: int) -> bool {
    i32::MIN <= v <= i32::MAX
}

/// The pixel coordinate of grid cell `cell` for characters `size` pixels
/// across, with the grid at `origin` and the frame shifted by `offset`:
/// `cell * size + origin + offset`, each of `cell` and `size` taken as an
/// `i32`.
pub open spec fn cell_pixel(cell: u32, size: u32, origin: i32, offset: i32) -> int {
    (cell as i32) * (size as i32) + origin + offset
}

/// The `i32` arithmetic of `cell_pixel`, done left to right, never leaves
/// the `i32` range.
pub open spec fn cell_pixel_fits(cell: u32, size: u32, origin: i32, offset: i32) -> bool {
    let p = (cell as i32) * (size as i32);
    fits_i32(p) && fits_i32(p + origin) && fits_i32(p + origin + offset)
}

/// A glyph is drawn unless its index is 0 or its cell is masked.
pub open spec fn is_drawn(g: Glyph, masked: bool) -> bool {
    g.index != 0 && !masked
}

/// The pixel arithmetic of every glyph that is drawn stays in `i32`.
pub open spec fn placements_fit(
    glyphs: Seq<Glyph>,
    masked: Seq<bool>,
    size: (u32, u32),
    origin: (i32, i32),
    offset: (i32, i32),
) -> bool {
    forall|i: int|
        0 <= i < glyphs.len() && #[trigger] is_drawn(glyphs[i], masked[i]) ==> cell_pixel_fits(
            glyphs[i].grid_position.x,
            size.0,
            origin.0,
            offset.0,
        ) && cell_pixel_fits(glyphs[i].grid_position.y, size.1, origin.1, offset.1)
}

/// The placements of the drawn glyphs, in order (see `is_drawn` and
/// `cell_pixel`); `masked[i]` tells whether the cell of glyph `i` is masked.
pub open spec fn placements(
    glyphs: Seq<Glyph>,
    masked: Seq<bool>,
    size: (u32, u32),
    origin: (i32, i32),
    offset: (i32, i32),
) -> Seq<GlyphPlacement>
    decreases glyphs.len(),
{
    if glyphs.len() == 0 {
        Seq::empty()
    } else {
        let n = glyphs.len() - 1;
        let g = glyphs[n];
        let rest = placements(glyphs.take(n), masked.take(n), size, origin, offset);
        if is_drawn(g, masked[n]) {
            rest.push(
                GlyphPlacement {
                    index: g.index,
                    x: cell_pixel(g.grid_position.x, size.0, origin.0, offset.0) as i32,
                    y: cell_pixel(g.grid_position.y, size.1, origin.1, offset.1) as i32,
                },
            )
        } else {
            rest
        }
    }
}

fn pixel_of(cell: u32, size: u32, origin: i32, offset: i32) -> (v: i32)
    requires
        cell_pixel_fits(cell, size, origin, offset),
    ensures
        v == cell_pixel(cell, size, origin, offset),
{
    let p = (#[verifier::truncate] (cell as i32)) * (#[verifier::truncate] (size as i32));
    p + origin + offset
}

/// Where each glyph of an OSD frame is drawn, for characters of
/// `size` = (width, height) pixels, with the grid's top-left corner at
/// `origin` and the frame shifted by `offset`: glyphs with index 0 and
/// glyphs whose cell is masked (`masked[i]` for glyph `i`) are skipped;
/// the others are placed at `cell * size + origin + offset` on each axis,
/// computed in `i32`.
pub fn glyph_placements(
    glyphs: &Vec<Glyph>,
    masked: &Vec<bool>,
    size: (u32, u32),
    origin: (i32, i32),
    offset: (i32, i32),
) -> (r: Vec<GlyphPlacement>)
    requires
        masked@.len() == glyphs@.len(),
        placements_fit(glyphs@, masked@, size, origin, offset),
    ensures
        r@ == placements(glyphs@, masked@, size, origin, offset),
{
    let mut out: Vec<GlyphPlacement> = Vec::new();
    let mut i: usize = 0;
    while i < glyphs.len()
        invariant
            i <= glyphs@.len(),
            masked@.len() == glyphs@.len(),
            placements_fit(glyphs@, masked@, size, origin, offset),
            out@ == placements(glyphs@.take(i as int), masked@.take(i as int), size, origin, offset),
        decreases glyphs@.len() - i,
    {
        let g = glyphs[i];
        assert(glyphs@.take(i + 1).take(i as int) =~= glyphs@.take(i as int));
        assert(masked@.take(i + 1).take(i as int) =~= masked@.take(i as int));
        if g.index != 0 && !masked[i] {
            assert(is_drawn(glyphs@[i as int], masked@[i as int]));
            let x = pixel_of(g.grid_position.x, size.0, origin.0, offset.0);
            let y = pixel_of(g.grid_position.y, size.1, origin.1, offset.1);
            out.push(GlyphPlacement { index: g.index, x, y });
        }
        i = i + 1;
    }
    assert(glyphs@.take(glyphs@.len() as int) =~= glyphs@);
    assert(masked@.take(masked@.len() as int) =~= masked@);
    out
}

/// Whether the pixel arithmetic of every drawn glyph stays in `i32` (see
/// `placements_fit`), so that `glyph_placements` may be called.
pub fn glyph_placements_fit(
    glyphs: &Vec<Glyph>,
    masked: &Vec<bool>,
    size: (u32, u32),
    origin: (i32, i32),
    offset: (i32, i32),
) -> (r: bool)
    requires
        masked@.len() == glyphs@.len(),
    ensures
        r == placements_fit(glyphs@, masked@, size, origin, offset),
{
    let mut i: usize = 0;
    while i < glyphs.len()
        invariant
            i <= glyphs@.len(),
            masked@.len() == glyphs@.len(),
            forall|k: int|
                0 <= k < i && #[trigger] is_drawn(glyphs@[k], masked@[k]) ==> cell_pixel_fits(
                    glyphs@[k].grid_position.x,
                    size.0,
                    origin.0,
                    offset.0,
                ) && cell_pixel_fits(glyphs@[k].grid_position.y, size.1, origin.1, offset.1),
        decreases glyphs@.len() - i,
    {
        let g = glyphs[i];
        if g.index != 0 && !masked[i] {
            if !(pixel_fits(g.grid_position.x, size.0, origin.0, offset.0) && pixel_fits(
                g.grid_position.y,
                size.1,
                origin.1,
                offset.1,
            )) {
                assert(is_drawn(glyphs@[i as int], masked@[i as int]));
                return false;
            }
        }
        i = i + 1;
    }
    true
}

fn pixel_fits(cell: u32, size: u32, origin: i32, offset: i32) -> (r: bool)
    ensures
        r == cell_pixel_fits(cell, size, origin, offset),
{
    let a = (#[verifier::truncate] (cell as i32)) as i64;
    let b = (#[verifier::truncate] (size as i32)) as i64;
    assert(-0x4000_0000_0000_0000 <= a * b <= 0x4000_0000_0000_0000) by (nonlinear_arith)
        requires
            -0x8000_0000 <= a < 0x8000_0000,
            -0x8000_0000 <= b < 0x8000_0000,
    ;
    let p = a * b;
    let min = i32::MIN as i64;
    let max = i32::MAX as i64;
    if p < min || p > max {
        return false;
    }
    let q = p + origin as i64;
    if q < min || q > max {
        return false;
    }
    let t = q + offset as i64;
    t >= min && t <= max
}

/// An RGBA image: `width` x `height` pixels, row by row, four bytes
/// (red, green, blue, alpha) each.
pub struct RgbaBuffer {
    pub width: u32,
    pub height: u32,
    pub pixels: Vec<u8>,
}

impl RgbaBuffer {
    /// The pixel bytes are exactly `width * height * 4`.
    pub open spec fn wf(&self) -> bool {
        self.pixels@.len() == self.width as int * self.height as int * 4
    }
}

/// Index of channel `c` of pixel (`px`, `py`) in an image `width` wide.
pub open spec fn channel_index(width: int, px: int, py: int, c: int) -> int {
    (py * width + px) * 4 + c
}

/// Channel `c` of a bottom byte `b` after drawing a top pixel whose channel
/// `c` is `t` and whose alpha is `a` over it: a transparent pixel leaves
/// `b`, an opaque one replaces the colour and makes the pixel opaque, and
/// any other blends the colour as `(t * a + b * (255 - a)) / 255` and keeps
/// the bottom alpha.
pub open spec fn blend_channel(c: int, a: u8, t: u8, b: u8) -> u8 {
    if a == 0 {
        b
    } else if a == 255 {
        if c < 3 {
            t
        } else {
            255
        }
    } else if c < 3 {
        ((t * a + b * (255 - a)) / 255) as u8
    } else {
        b
    }
}

/// Channel `c` of pixel (`px`, `py`) of `bottom` after drawing `top` with
/// its top-left corner at (`x`, `y`) of `bottom`.
pub open spec fn overlaid_channel(
    bottom: Seq<u8>,
    bottom_width: int,
    top: Seq<u8>,
    top_width: int,
    top_height: int,
    x: int,
    y: int,
    px: int,
    py: int,
    c: int,
) -> u8 {
    let b = bottom[channel_index(bottom_width, px, py, c)];
    let tx = px - x;
    let ty = py - y;
    if 0 <= tx < top_width && 0 <= ty < top_height {
        blend_channel(
            c,
            top[channel_index(top_width, tx, ty, 3)],
            top[channel_index(top_width, tx, ty, c)],
            b,
        )
    } else {
        b
    }
}

proof fn lemma_channel_index_bounds(w: int, h: int, px: int, py: int, c: int)
    requires
        0 <= px < w,
        0 <= py < h,
        0 <= c < 4,
    ensures
        0 <= channel_index(w, px, py, c) < w * h * 4,
        channel_index(w, px, py, 0) + 4 <= w * h * 4,
{
    assert(0 <= (py * w + px) * 4 + c) by (nonlinear_arith)
        requires 0 <= px < w, 0 <= py < h, 0 <= c < 4;
    assert((py * w + px) * 4 + 4 <= w * h * 4) by (nonlinear_arith)
        requires 0 <= px < w, 0 <= py < h;
}

proof fn lemma_channel_index_injective(w: int, px: int, py: int, c: int, qx: int, qy: int, d: int)
    requires
        0 <= px < w,
        0 <= qx < w,
        0 <= py,
        0 <= qy,
        0 <= c < 4,
        0 <= d < 4,
        channel_index(w, px, py, c) == channel_index(w, qx, qy, d),
    ensures
        px == qx && py == qy && c == d,
{
    let i = channel_index(w, px, py, c);
    vstd::arithmetic::div_mod::lemma_fundamental_div_mod_converse(i, 4, py * w + px, c);
    vstd::arithmetic::div_mod::lemma_fundamental_div_mod_converse(i, 4, qy * w + qx, d);
    vstd::arithmetic::div_mod::lemma_fundamental_div_mod_converse(py * w + px, w, py, px);
    vstd::arithmetic::div_mod::lemma_fundamental_div_mod_converse(qy * w + qx, w, qy, qx);
}

/// Pixels processed so far, in row-major order: rows above `row`, and the
/// columns left of `col` in row `row`.
pub open spec fn before_cursor(px: int, py: int, col: int, row: int) -> bool {
    py < row || (py == row && px < col)
}

/// Draws `top` onto `bottom` with its top-left corner at (`x`, `y`) of
/// `bottom` (which may lie outside it): each pixel of `bottom` under `top`
/// is blended as `blend_channel` says, every other byte stays.
pub fn fast_overlay_rgba(bottom: &mut RgbaBuffer, top: &RgbaBuffer, x: i64, y: i64)
    requires
        old(bottom).wf(),
        top.wf(),
    ensures
        final(bottom).width == old(bottom).width,
        final(bottom).height == old(bottom).height,
        final(bottom).pixels@.len() == old(bottom).pixels@.len(),
        forall|px: int, py: int, c: int|
            0 <= px < old(bottom).width && 0 <= py < old(bottom).height && 0 <= c < 4
                ==> #[trigger] final(bottom).pixels@[channel_index(old(bottom).width as int, px, py, c)]
                == overlaid_channel(
                old(bottom).pixels@,
                old(bottom).width as int,
                top.pixels@,
                top.width as int,
                top.height as int,
                x as int,
                y as int,
                px,
                py,
                c,
            ),
{
    let ghost orig = bottom.pixels@;
    let ghost bw0 = bottom.width as int;
    let ghost bh0 = bottom.height as int;
    let bottom_width = bottom.width as i64;
    let bottom_height = bottom.height as i64;
    let top_width = top.width as i64;
    let top_height = top.height as i64;

    if x >= bottom_width || y >= bottom_height || x + top_width <= 0 || y + top_height <= 0 {
        return;
    }
    let start_x: i64 = if x < 0 {
        -x
    } else {
        0
    };
    let start_y: i64 = if y < 0 {
        -y
    } else {
        0
    };
    let end_x: i64 = if top_width < bottom_width - x {
        top_width
    } else {
        bottom_width - x
    };
    let end_y: i64 = if top_height < bottom_height - y {
        top_height
    } else {
        bottom_height - y
    };
    let bw = bottom.width as usize;
    let tw = top.width as usize;
    let blen = bottom.pixels.len();
    let tlen = top.pixels.len();

    let mut dy = start_y;
    while dy < end_y
        invariant
            bottom.width == bw0,
            bottom.height == bh0,
            bottom.pixels@.len() == orig.len(),
            orig.len() == bw0 * bh0 * 4,
            blen == orig.len(),
            tlen == top.pixels@.len(),
            top.wf(),
            bw == bw0,
            tw == top.width,
            bottom_width == bw0,
            bottom_height == bh0,
            top_width == top.width,
            top_height == top.height,
            start_x == if x < 0 { -x } else { 0int },
            start_y == if y < 0 { -y } else { 0int },
            end_x == if top_width < bottom_width - x { top_width as int } else { bottom_width - x },
            end_y == if top_height < bottom_height - y { top_height as int } else { bottom_height - y },
            x < bottom_width,
            y < bottom_height,
            x + top_width > 0,
            y + top_height > 0,
            start_y <= dy <= end_y,
            forall|px: int, py: int, c: int|
                0 <= px < bw0 && 0 <= py < bh0 && 0 <= c < 4
                    ==> #[trigger] bottom.pixels@[channel_index(bw0, px, py, c)] == if before_cursor(
                    px,
                    py,
                    0,
                    y + dy,
                ) {
                    overlaid_channel(
                        orig,
                        bw0,
                        top.pixels@,
                        top.width as int,
                        top.height as int,
                        x as int,
                        y as int,
                        px,
                        py,
                        c,
                    )
                } else {
                    orig[channel_index(bw0, px, py, c)]
                },
        decreases end_y - dy,
    {
        let mut dx = start_x;
        while dx < end_x
            invariant
                bottom.width == bw0,
                bottom.height == bh0,
                bottom.pixels@.len() == orig.len(),
                orig.len() == bw0 * bh0 * 4,
                blen == orig.len(),
                tlen == top.pixels@.len(),
                top.wf(),
                bw == bw0,
                tw == top.width,
                bottom_width == bw0,
                bottom_height == bh0,
                top_width == top.width,
                top_height == top.height,
                start_x == if x < 0 { -x } else { 0int },
                start_y == if y < 0 { -y } else { 0int },
                end_x == if top_width < bottom_width - x { top_width as int } else { bottom_width - x },
                end_y == if top_height < bottom_height - y { top_height as int } else { bottom_height - y },
                x < bottom_width,
                y < bottom_height,
                x + top_width > 0,
                y + top_height > 0,
                start_y <= dy < end_y,
                start_x <= dx <= end_x,
                forall|px: int, py: int, c: int|
                    0 <= px < bw0 && 0 <= py < bh0 && 0 <= c < 4
                        ==> #[trigger] bottom.pixels@[channel_index(bw0, px, py, c)]
                        == if before_cursor(px, py, x + dx, y + dy) {
                        overlaid_channel(
                            orig,
                            bw0,
                            top.pixels@,
                            top.width as int,
                            top.height as int,
                            x as int,
                            y as int,
                            px,
                            py,
                            c,
                        )
                    } else {
                        orig[channel_index(bw0, px, py, c)]
                    },
            decreases end_x - dx,
        {
            let px = (x + dx) as usize;
            let py = (y + dy) as usize;
            let tx = dx as usize;
            let ty = dy as usize;
            proof {
                lemma_channel_index_bounds(bw0, bh0, px as int, py as int, 0);
                lemma_channel_index_bounds(
                    top.width as int,
                    top.height as int,
                    tx as int,
                    ty as int,
                    0,
                );
                assert(py * bw <= py * bw + px);
                assert(ty * tw <= ty * tw + tx);
            }
            let b = (py * bw + px) * 4;
            let t = (ty * tw + tx) * 4;
            let ghost before = bottom.pixels@;
            let alpha = top.pixels[t + 3];
            if alpha == 0 {
            } else if alpha == 255 {
                let r = top.pixels[t];
                let g = top.pixels[t + 1];
                let bl = top.pixels[t + 2];
                bottom.pixels.set(b, r);
                bottom.pixels.set(b + 1, g);
                bottom.pixels.set(b + 2, bl);
                bottom.pixels.set(b + 3, 255);
            } else {
                let a = alpha as u16;
                let inv_a = 255 - a;
                let mut ch: usize = 0;
                while ch < 3
                    invariant
                        ch <= 3,
                        a == alpha as u16,
                        0 < alpha < 255,
                        inv_a == 255 - a,
                        b + 4 <= bottom.pixels@.len(),
                        t + 4 <= top.pixels@.len(),
                        bottom.pixels@.len() == blen,
                        top.pixels@.len() == tlen,
                        bottom.width == bw0,
                        bottom.height == bh0,
                        bottom.pixels@.len() == before.len(),
                        forall|i: int|
                            0 <= i < before.len() ==> #[trigger] bottom.pixels@[i] == if b <= i
                                < b + ch {
                                ((top.pixels@[t + i - b] * a + before[i] * (255 - a)) / 255) as u8
                            } else {
                                before[i]
                            },
                    decreases 3 - ch,
                {
                    let tv = top.pixels[t + ch] as u16;
                    let bv = bottom.pixels[b + ch] as u16;
                    assert(tv * a + bv * inv_a <= 65025) by (nonlinear_arith)
                        requires tv <= 255, bv <= 255, a <= 255, inv_a == 255 - a;
                    let v = ((tv * a + bv * inv_a) / 255) as u8;
                    bottom.pixels.set(b + ch, v);
                    ch = ch + 1;
                }
            }
            proof {
                assert forall|qx: int, qy: int, c: int|
                    0 <= qx < bw0 && 0 <= qy < bh0 && 0 <= c < 4 implies #[trigger] bottom.pixels@[channel_index(
                    bw0,
                    qx,
                    qy,
                    c,
                )] == if before_cursor(qx, qy, x + dx + 1, y + dy) {
                    overlaid_channel(
                        orig,
                        bw0,
                        top.pixels@,
                        top.width as int,
                        top.height as int,
                        x as int,
                        y as int,
                        qx,
                        qy,
                        c,
                    )
                } else {
                    orig[channel_index(bw0, qx, qy, c)]
                } by {
                    let i = channel_index(bw0, qx, qy, c);
                    lemma_channel_index_bounds(bw0, bh0, qx, qy, c);
                    assert(before[i] == if before_cursor(qx, qy, x + dx, y + dy) {
                        overlaid_channel(
                            orig,
                            bw0,
                            top.pixels@,
                            top.width as int,
                            top.height as int,
                            x as int,
                            y as int,
                            qx,
                            qy,
                            c,
                        )
                    } else {
                        orig[i]
                    });
                    if qx == px && qy == py {
                        assert(i == b + c);
                        assert(channel_index(top.width as int, tx as int, ty as int, c) == t + c);
                        assert(channel_index(top.width as int, tx as int, ty as int, 3) == t + 3);
                        assert(before[i] == orig[i]);
                    } else {
                        if b <= i < b + 4 {
                            lemma_channel_index_injective(bw0, qx, qy, c, px as int, py as int, i - b);
                        }
                    }
                }
            }
            dx = dx + 1;
        }
        dy = dy + 1;
    }
}

/// Drawing a fully transparent image changes nothing, and drawing a fully
/// opaque one makes every covered pixel the top pixel's colour at full
/// opacity.
pub proof fn law_overlay_alpha_extremes(
    bottom: Seq<u8>,
    bottom_width: int,
    top: Seq<u8>,
    top_width: int,
    top_height: int,
    x: int,
    y: int,
    px: int,
    py: int,
    c: int,
)
    requires
        0 <= c < 4,
    ensures
        ({
            let tx = px - x;
            let ty = py - y;
            top[channel_index(top_width, tx, ty, 3)] == 0 ==> overlaid_channel(
                bottom,
                bottom_width,
                top,
                top_width,
                top_height,
                x,
                y,
                px,
                py,
                c,
            ) == bottom[channel_index(bottom_width, px, py, c)]
        }),
        ({
            let tx = px - x;
            let ty = py - y;
            (0 <= tx < top_width && 0 <= ty < top_height && top[channel_index(
                top_width,
                tx,
                ty,
                3,
            )] == 255) ==> overlaid_channel(
                bottom,
                bottom_width,
                top,
                top_width,
                top_height,
                x,
                y,
                px,
                py,
                c,
            ) == if c < 3 {
                top[channel_index(top_width, tx, ty, c)]
            } else {
                255u8
            }
        }),
{
}

/// Drawing a partly transparent pixel (alpha `a` strictly between 0 and
/// 255) over a bottom pixel makes each colour channel the weighted average
/// `(top * a + bottom * (255 - a)) / 255`, rounded down, so it lies between
/// the two colours; the bottom pixel keeps its own alpha. Pixels outside
/// the drawn image keep every channel.
pub proof fn law_overlay_partial_alpha(
    bottom: Seq<u8>,
    bottom_width: int,
    top: Seq<u8>,
    top_width: int,
    top_height: int,
    x: int,
    y: int,
    px: int,
    py: int,
    c: int,
)
    requires
        0 <= c < 4,
    ensures
        ({
            let tx = px - x;
            let ty = py - y;
            let a = top[channel_index(top_width, tx, ty, 3)];
            let t = top[channel_index(top_width, tx, ty, c)];
            let b = bottom[channel_index(bottom_width, px, py, c)];
            let v = overlaid_channel(
                bottom,
                bottom_width,
                top,
                top_width,
                top_height,
                x,
                y,
                px,
                py,
                c,
            );
            &&& (0 <= tx < top_width && 0 <= ty < top_height && 0 < a < 255 && c < 3) ==> (255 * v
                <= t * a + b * (255 - a) < 255 * (v + 1) && (v >= t || v >= b) && (v <= t || v
                <= b))
            &&& (0 <= tx < top_width && 0 <= ty < top_height && a < 255 && c == 3) ==> v == b
            &&& !(0 <= tx < top_width && 0 <= ty < top_height) ==> v == b
        }),
{
    let tx = px - x;
    let ty = py - y;
    if 0 <= tx < top_width && 0 <= ty < top_height {
        let a = top[channel_index(top_width, tx, ty, 3)];
        let t = top[channel_index(top_width, tx, ty, c)];
        let b = bottom[channel_index(bottom_width, px, py, c)];
        if 0 < a < 255 && c < 3 {
            let w: int = t * a + b * (255 - a);
            assert(0 <= w <= 255 * 255) by (nonlinear_arith)
                requires 0 < a < 255, t <= 255, b <= 255, w == t * a + b * (255 - a), t >= 0, b >= 0;
            let v = w / 255;
            assert(255 * v <= w < 255 * (v + 1)) by (nonlinear_arith)
                requires v == w / 255, w >= 0;
            assert((v >= t || v >= b) && (v <= t || v <= b)) by (nonlinear_arith)
                requires
                    v == w / 255,
                    w == t * a + b * (255 - a),
                    0 < a < 255,
                    0 <= t <= 255,
                    0 <= b <= 255,
            {
                if t <= b {
                    assert(255 * t <= w <= 255 * b);
                } else {
                    assert(255 * b <= w <= 255 * t);
                }
            }
        }
    }
}

} // verus!
