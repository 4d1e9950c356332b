//! One frame of an OSD recording: a timestamp and the glyphs shown on the
//! character grid, with its fixed-size binary encoding.
use vstd::prelude::*;

verus! {

/// Bytes of the little-endian timestamp that starts an encoded frame.
pub const TIMESTAMP_BYTES: usize = 4;

/// Bytes of one little-endian glyph index in an encoded frame.
pub const BYTES_PER_GLYPH: usize = 2;

/// Columns of the OSD character grid.
pub const GRID_WIDTH: usize = 53;

/// Rows of the OSD character grid.
pub const GRID_HEIGHT: usize = 20;

/// Cells of the OSD character grid.
pub const GRID_CELLS: usize = 1060;

/// Length of an encoded frame: timestamp followed by one index per grid cell.
pub const FRAME_BYTES: usize = 2124;

/// Position of a glyph on the character grid (column `x`, row `y`).
#[derive(Clone, Copy, Debug, PartialEq, Eq, Structural)]
pub struct GridPosition {
    pub x: u32,
    pub y: u32,
}

/// A font character drawn at a grid position.
#[derive(Clone, Copy, Debug, PartialEq, Eq, Structural)]
pub struct Glyph {
    pub index: u16,
    pub grid_position: GridPosition,
}

/// The glyphs shown from `time_millis` on.
#[derive(Clone, Debug)]
pub struct Frame {
    pub time_millis: u32,
    pub glyphs: Vec<Glyph>,
}

/// Index 0 and the space character (0x20) draw nothing.
pub open spec fn is_blank(index: u16) -> bool {
    index == 0 || index == 0x20
}

/// The little-endian `u16` made of `lo` and `hi`.
pub open spec fn le_u16(lo: u8, hi: u8) -> u16 {
    (lo + 256 * hi) as u16
}

/// The little-endian `u32` made of four bytes.
pub open spec fn le_u32(b0: u8, b1: u8, b2: u8, b3: u8) -> u32 {
    (b0 + 256 * b1 + 65536 * b2 + 16777216 * b3) as u32
}

/// The four little-endian bytes of `t`.
pub open spec fn u32_le_bytes(t: u32) -> Seq<u8> {
    seq![
        (t % 256) as u8,
        ((t / 256) % 256) as u8,
        ((t / 65536) % 256) as u8,
        ((t / 16777216) % 256) as u8,
    ]
}

/// The two little-endian bytes of `v`.
pub open spec fn u16_le_bytes(v: u16) -> Seq<u8> {
    seq![(v % 256) as u8, (v / 256) as u8]
}

/// The timestamp at the start of an encoded frame.
pub open spec fn time_of(bytes: Seq<u8>) -> u32 {
    le_u32(bytes[0], bytes[1], bytes[2], bytes[3])
}

/// The glyph indices that follow the timestamp, one per two bytes.
pub open spec fn cells_of(bytes: Seq<u8>) -> Seq<u16> {
    Seq::new(
        ((bytes.len() - TIMESTAMP_BYTES) / 2) as nat,
        |k: int| le_u16(bytes[4 + 2 * k], bytes[5 + 2 * k]),
    )
}

/// The glyph for cell `k` of the grid holding `index`.
pub open spec fn cell_glyph(k: int, index: u16) -> Glyph {
    Glyph {
        index,
        grid_position: GridPosition {
            x: (k % GRID_WIDTH as int) as u32,
            y: (k / GRID_WIDTH as int) as u32,
        },
    }
}

/// The non-blank cells of `cells`, in cell order, as glyphs.
pub open spec fn glyphs_of_cells(cells: Seq<u16>) -> Seq<Glyph>
    decreases cells.len(),
{
    if cells.len() == 0 {
        Seq::empty()
    } else {
        let k = cells.len() - 1;
        let rest = glyphs_of_cells(cells.drop_last());
        if is_blank(cells[k]) {
            rest
        } else {
            rest.push(cell_glyph(k, cells[k]))
        }
    }
}

/// Grid cell of a position: `row * 53 + column`.
pub open spec fn cell_index(p: GridPosition) -> int {
    p.y * GRID_WIDTH as int + p.x
}

/// The grid after drawing `glyphs` in order onto an empty grid: each glyph
/// goes to cell `row * 53 + column` (a column past the right edge runs on
/// into the following rows), a later glyph replaces an earlier one in the
/// same cell, and glyphs whose cell lies past the last one are dropped.
pub open spec fn grid_of(glyphs: Seq<Glyph>) -> Seq<u16>
    decreases glyphs.len(),
{
    if glyphs.len() == 0 {
        Seq::new(GRID_CELLS as nat, |k: int| 0u16)
    } else {
        let g = glyphs.last();
        let before = grid_of(glyphs.drop_last());
        let k = cell_index(g.grid_position);
        if k < GRID_CELLS {
            before.update(k, g.index)
        } else {
            before
        }
    }
}

/// The encoding of a timestamp and a grid: the timestamp, then each cell,
/// all little-endian.
pub open spec fn encode_frame(t: u32, grid: Seq<u16>) -> Seq<u8> {
    Seq::new(
        (TIMESTAMP_BYTES + 2 * grid.len()) as nat,
        |i: int|
            if i < 4 {
                u32_le_bytes(t)[i]
            } else {
                u16_le_bytes(grid[(i - 4) / 2])[(i - 4) % 2]
            },
    )
}

/// A well-formed encoded frame: a timestamp and whole glyph indices.
pub open spec fn is_frame_encoding(bytes: Seq<u8>) -> bool {
    bytes.len() >= TIMESTAMP_BYTES && (bytes.len() - TIMESTAMP_BYTES) % 2 == 0
}

/// `cells` with every space (0x20) cleared to 0.
pub open spec fn clear_spaces(cells: Seq<u16>) -> Seq<u16> {
    Seq::new(cells.len(), |k: int| if is_blank(cells[k]) { 0u16 } else { cells[k] })
}

impl Frame {
    /// Decodes an encoded frame: the little-endian timestamp, then one
    /// little-endian glyph index per grid cell in row-major order; cells
    /// holding 0 or 0x20 yield no glyph.
    pub fn from_bytes(value: &[u8]) -> (frame: Frame)
        requires
            is_frame_encoding(value@),
        ensures
            frame.time_millis == time_of(value@),
            frame.glyphs@ == glyphs_of_cells(cells_of(value@)),
    {
        let time_millis: u32 = value[0] as u32 + 256 * (value[1] as u32) + 65536 * (value[2] as u32)
            + 16777216 * (value[3] as u32);
        let n: usize = (value.len() - TIMESTAMP_BYTES) / BYTES_PER_GLYPH;
        let ghost cells = cells_of(value@);
        let mut glyphs: Vec<Glyph> = Vec::new();
        let mut k: usize = 0;
        while k < n
            invariant
                is_frame_encoding(value@),
                n == cells.len(),
                TIMESTAMP_BYTES + 2 * n == value.len(),
                cells == cells_of(value@),
                k <= n,
                glyphs@ == glyphs_of_cells(cells.take(k as int)),
            decreases n - k,
        {
            let lo = value[TIMESTAMP_BYTES + 2 * k];
            let hi = value[TIMESTAMP_BYTES + 2 * k + 1];
            let index: u16 = lo as u16 + 256 * (hi as u16);
            assert(cells.take(k + 1).drop_last() =~= cells.take(k as int));
            assert(cells.take(k + 1)[k as int] == index);
            if index != 0 && index != 0x20 {
                glyphs.push(
                    Glyph {
                        index,
                        grid_position: GridPosition {
                            x: (k % GRID_WIDTH) as u32,
                            y: #[verifier::truncate] ((k / GRID_WIDTH) as u32),
                        },
                    },
                );
            }
            k = k + 1;
        }
        assert(cells.take(n as int) =~= cells);
        Frame { time_millis, glyphs }
    }

    /// Encodes the frame: the timestamp, then the whole grid, each cell
    /// holding the index of the last glyph drawn there (0 where none is;
    /// see `grid_of`).
    pub fn as_bytes(&self) -> (bytes: Vec<u8>)
        ensures
            bytes@ == encode_frame(self.time_millis, grid_of(self.glyphs@)),
            bytes@.len() == FRAME_BYTES,
    {
        let mut grid: Vec<u16> = vec![0u16; GRID_CELLS];
        let ghost glyphs = self.glyphs@;
        assert(grid@ =~= grid_of(glyphs.take(0)));
        let mut i: usize = 0;
        while i < self.glyphs.len()
            invariant
                glyphs == self.glyphs@,
                i <= glyphs.len(),
                grid@ == grid_of(glyphs.take(i as int)),
                grid@.len() == GRID_CELLS,
            decreases glyphs.len() - i,
        {
            let glyph = self.glyphs[i];
            assert(glyphs.take(i + 1).drop_last() =~= glyphs.take(i as int));
            let idx: u64 = glyph.grid_position.y as u64 * 53 + glyph.grid_position.x as u64;
            if idx < 1060 {
                grid.set(idx as usize, glyph.index);
            }
            i = i + 1;
        }
        assert(glyphs.take(glyphs.len() as int) =~= glyphs);
        let ghost target = encode_frame(self.time_millis, grid@);
        let t = self.time_millis;
        let mut bytes: Vec<u8> = Vec::with_capacity(FRAME_BYTES);
        bytes.push((t % 256) as u8);
        bytes.push(((t / 256) % 256) as u8);
        bytes.push(((t / 65536) % 256) as u8);
        bytes.push(((t / 16777216) % 256) as u8);
        let mut k: usize = 0;
        while k < GRID_CELLS
            invariant
                grid@.len() == GRID_CELLS,
                target == encode_frame(t, grid@),
                k <= GRID_CELLS,
                bytes@.len() == 4 + 2 * k,
                forall|j: int| 0 <= j < bytes@.len() ==> bytes@[j] == #[trigger] target[j],
            decreases GRID_CELLS - k,
        {
            let v = grid[k];
            bytes.push((v % 256) as u8);
            bytes.push((v / 256) as u8);
            proof {
                let j0 = 4 + 2 * k;
                assert((j0 - 4) / 2 == k && (j0 - 4) % 2 == 0);
                assert((j0 + 1 - 4) / 2 == k && (j0 + 1 - 4) % 2 == 1);
            }
            k = k + 1;
        }
        assert(bytes@ =~= target);
        bytes
    }
}

} // verus!

verus! {

proof fn lemma_u16_bytes(v: u16)
    ensures
        le_u16(u16_le_bytes(v)[0], u16_le_bytes(v)[1]) == v,
{
    assert((v % 256) + 256 * (v / 256) == v) by (nonlinear_arith);
}

proof fn lemma_u16_of_bytes(lo: u8, hi: u8)
    ensures
        u16_le_bytes(le_u16(lo, hi)) == seq![lo, hi],
{
    let v = le_u16(lo, hi);
    assert(lo + 256 * hi < 65536) by (nonlinear_arith)
        requires lo < 256, hi < 256;
    assert(v == lo + 256 * hi);
    assert(v % 256 == lo && v / 256 == hi) by (nonlinear_arith)
        requires v == lo + 256 * hi, lo < 256, hi < 256;
    assert(u16_le_bytes(v) =~= seq![lo, hi]);
}

proof fn lemma_u32_bytes(t: u32)
    ensures
        ({
            let b = u32_le_bytes(t);
            le_u32(b[0], b[1], b[2], b[3]) == t
        }),
{
    assert((t % 256) + 256 * ((t / 256) % 256) + 65536 * ((t / 65536) % 256) + 16777216 * ((t
        / 16777216) % 256) == t) by (nonlinear_arith);
}

proof fn lemma_u32_of_bytes(b0: u8, b1: u8, b2: u8, b3: u8)
    ensures
        u32_le_bytes(le_u32(b0, b1, b2, b3)) == seq![b0, b1, b2, b3],
{
    let x: int = b0 + 256 * b1 + 65536 * b2 + 16777216 * b3;
    assert(0 <= x < 0x1_0000_0000) by (nonlinear_arith)
        requires x == b0 + 256 * b1 + 65536 * b2 + 16777216 * b3, b0 < 256, b1 < 256, b2 < 256, b3 < 256;
    let t = le_u32(b0, b1, b2, b3);
    assert(t == x);
    assert(t % 256 == b0 && (t / 256) % 256 == b1 && (t / 65536) % 256 == b2 && (t / 16777216)
        % 256 == b3) by (nonlinear_arith)
        requires t == b0 + 256 * b1 + 65536 * b2 + 16777216 * b3, b0 < 256, b1 < 256, b2 < 256, b3 < 256;
    assert(u32_le_bytes(t) =~= seq![b0, b1, b2, b3]);
}

/// Decoding an encoded frame gives back its timestamp and its grid: the
/// timestamp read from `encode_frame(t, grid)` is `t` and the cells read are
/// `grid`.
pub proof fn law_decode_encode(t: u32, grid: Seq<u16>)
    ensures
        is_frame_encoding(encode_frame(t, grid)),
        time_of(encode_frame(t, grid)) == t,
        cells_of(encode_frame(t, grid)) == grid,
{
    let e = encode_frame(t, grid);
    lemma_u32_bytes(t);
    assert forall|k: int| 0 <= k < grid.len() implies #[trigger] cells_of(e)[k] == grid[k] by {
        assert((4 + 2 * k - 4) / 2 == k && (4 + 2 * k - 4) % 2 == 0);
        assert((5 + 2 * k - 4) / 2 == k && (5 + 2 * k - 4) % 2 == 1);
        lemma_u16_bytes(grid[k]);
    }
    assert(cells_of(e) =~= grid);
}

/// Re-encoding the cells and timestamp read from a well-formed encoding
/// gives back the same bytes.
pub proof fn law_encode_decode_bytes(bytes: Seq<u8>)
    requires
        is_frame_encoding(bytes),
    ensures
        encode_frame(time_of(bytes), cells_of(bytes)) == bytes,
{
    let e = encode_frame(time_of(bytes), cells_of(bytes));
    lemma_u32_of_bytes(bytes[0], bytes[1], bytes[2], bytes[3]);
    assert forall|i: int| 0 <= i < bytes.len() implies #[trigger] e[i] == bytes[i] by {
        if i >= 4 {
            let k = (i - 4) / 2;
            assert(4 + 2 * k == i || 5 + 2 * k == i);
            lemma_u16_of_bytes(bytes[4 + 2 * k], bytes[5 + 2 * k]);
        }
    }
    assert(e =~= bytes);
}

proof fn lemma_cell_glyph_index(k: int, index: u16)
    requires
        0 <= k < GRID_CELLS,
    ensures
        cell_index(cell_glyph(k, index).grid_position) == k,
{
    assert((k / 53) * 53 + k % 53 == k) by (nonlinear_arith);
    assert(k / 53 < 20) by (nonlinear_arith)
        requires 0 <= k < 1060;
}

proof fn lemma_grid_of_cells(cells: Seq<u16>, m: int)
    requires
        cells.len() == GRID_CELLS,
        0 <= m <= cells.len(),
    ensures
        grid_of(glyphs_of_cells(cells.take(m))) == Seq::new(
            GRID_CELLS as nat,
            |k: int| if k < m && !is_blank(cells[k]) { cells[k] } else { 0u16 },
        ),
    decreases m,
{
    let target = Seq::new(
        GRID_CELLS as nat,
        |k: int| if k < m && !is_blank(cells[k]) { cells[k] } else { 0u16 },
    );
    if m == 0 {
        assert(cells.take(0) =~= Seq::<u16>::empty());
        assert(grid_of(glyphs_of_cells(cells.take(0))) =~= target);
    } else {
        lemma_grid_of_cells(cells, m - 1);
        let pre = cells.take(m);
        assert(pre.drop_last() =~= cells.take(m - 1));
        let gs = glyphs_of_cells(cells.take(m - 1));
        if is_blank(cells[m - 1]) {
            assert(grid_of(glyphs_of_cells(pre)) =~= target);
        } else {
            let g = cell_glyph(m - 1, cells[m - 1]);
            lemma_cell_glyph_index(m - 1, cells[m - 1]);
            assert(gs.push(g).drop_last() =~= gs);
            assert(grid_of(glyphs_of_cells(pre)) =~= target);
        }
    }
}

/// Drawing the glyphs decoded from a full-size encoding onto an empty grid
/// gives back the decoded cells, with spaces (0x20) cleared to 0.
pub proof fn law_grid_of_decoded(bytes: Seq<u8>)
    requires
        is_frame_encoding(bytes),
        bytes.len() == FRAME_BYTES,
    ensures
        grid_of(glyphs_of_cells(cells_of(bytes))) == clear_spaces(cells_of(bytes)),
{
    let cells = cells_of(bytes);
    lemma_grid_of_cells(cells, cells.len() as int);
    assert(cells.take(cells.len() as int) =~= cells);
    assert(grid_of(glyphs_of_cells(cells)) =~= clear_spaces(cells));
}

/// Encoding a decoded full-size frame gives back the original bytes, except
/// that spaces (0x20) come back as 0; when no cell holds a space the bytes
/// come back unchanged.
pub proof fn law_reencode(bytes: Seq<u8>)
    requires
        is_frame_encoding(bytes),
        bytes.len() == FRAME_BYTES,
    ensures
        encode_frame(time_of(bytes), grid_of(glyphs_of_cells(cells_of(bytes)))) == encode_frame(
            time_of(bytes),
            clear_spaces(cells_of(bytes)),
        ),
        (forall|k: int| 0 <= k < cells_of(bytes).len() ==> #[trigger] cells_of(bytes)[k] != 0x20)
            ==> encode_frame(time_of(bytes), grid_of(glyphs_of_cells(cells_of(bytes)))) == bytes,
{
    law_grid_of_decoded(bytes);
    law_encode_decode_bytes(bytes);
    let cells = cells_of(bytes);
    if forall|k: int| 0 <= k < cells.len() ==> #[trigger] cells[k] != 0x20 {
        assert(clear_spaces(cells) =~= cells);
    }
}

/// Glyphs as decoding lists them: each lies on the grid and is not blank,
/// and their cells strictly increase (so no two share a cell).
pub open spec fn is_canonical(glyphs: Seq<Glyph>) -> bool {
    &&& forall|j: int|
        0 <= j < glyphs.len() ==> (#[trigger] glyphs[j]).grid_position.x < GRID_WIDTH
            && glyphs[j].grid_position.y < GRID_HEIGHT && !is_blank(glyphs[j].index)
    &&& forall|i: int, j: int|
        0 <= i < j < glyphs.len() ==> cell_index((#[trigger] glyphs[i]).grid_position) < cell_index(
            (#[trigger] glyphs[j]).grid_position,
        )
}

proof fn lemma_trailing_blanks(cells: Seq<u16>, m: int)
    requires
        0 <= m <= cells.len(),
        forall|k: int| m <= k < cells.len() ==> is_blank(#[trigger] cells[k]),
    ensures
        glyphs_of_cells(cells) == glyphs_of_cells(cells.take(m)),
    decreases cells.len(),
{
    if cells.len() == m {
        assert(cells.take(m) =~= cells);
    } else {
        let rest = cells.drop_last();
        assert(is_blank(cells[cells.len() - 1]));
        assert(rest.take(m) =~= cells.take(m));
        lemma_trailing_blanks(rest, m);
    }
}

proof fn lemma_grid_len(glyphs: Seq<Glyph>)
    ensures
        grid_of(glyphs).len() == GRID_CELLS,
    decreases glyphs.len(),
{
    if glyphs.len() > 0 {
        lemma_grid_len(glyphs.drop_last());
    }
}

proof fn lemma_grid_zero_above(glyphs: Seq<Glyph>, b: int)
    requires
        0 <= b,
        forall|j: int| 0 <= j < glyphs.len() ==> cell_index((#[trigger] glyphs[j]).grid_position) < b,
    ensures
        forall|k: int| b <= k < GRID_CELLS ==> #[trigger] grid_of(glyphs)[k] == 0,
    decreases glyphs.len(),
{
    lemma_grid_len(glyphs);
    if glyphs.len() > 0 {
        let rest = glyphs.drop_last();
        assert forall|j: int| 0 <= j < rest.len() implies cell_index(
            (#[trigger] rest[j]).grid_position,
        ) < b by {
            assert(rest[j] == glyphs[j]);
        }
        lemma_grid_zero_above(rest, b);
        lemma_grid_len(rest);
        assert(cell_index(glyphs[glyphs.len() - 1].grid_position) < b);
    }
}

proof fn lemma_cell_of_position(x: u32, y: u32)
    requires
        x < GRID_WIDTH,
    ensures
        (y * 53 + x) % 53 == x,
        (y * 53 + x) / 53 == y,
{
    vstd::arithmetic::div_mod::lemma_fundamental_div_mod_converse(
        y * 53 + x,
        53,
        y as int,
        x as int,
    );
}

proof fn lemma_cells_of_canonical(glyphs: Seq<Glyph>)
    requires
        is_canonical(glyphs),
    ensures
        glyphs_of_cells(grid_of(glyphs)) == glyphs,
    decreases glyphs.len(),
{
    let cells = grid_of(glyphs);
    lemma_grid_len(glyphs);
    if glyphs.len() == 0 {
        lemma_grid_zero_above(glyphs, 0);
        lemma_trailing_blanks(cells, 0);
        assert(cells.take(0) =~= Seq::<u16>::empty());
        assert(glyphs =~= Seq::<Glyph>::empty());
    } else {
        let n = glyphs.len() - 1;
        let g = glyphs[n];
        let rest = glyphs.drop_last();
        let c = cell_index(g.grid_position);
        assert(g.grid_position.x < 53 && g.grid_position.y < 20 && !is_blank(g.index));
        assert(c < GRID_CELLS);
        assert forall|j: int| 0 <= j < rest.len() implies cell_index(
            (#[trigger] rest[j]).grid_position,
        ) < c by {
            assert(rest[j] == glyphs[j]);
            assert(cell_index(glyphs[j].grid_position) < cell_index(glyphs[n].grid_position));
        }
        assert(is_canonical(rest)) by {
            assert forall|j: int| 0 <= j < rest.len() implies (#[trigger] rest[j]).grid_position.x
                < GRID_WIDTH && rest[j].grid_position.y < GRID_HEIGHT && !is_blank(
                rest[j].index,
            ) by {
                assert(rest[j] == glyphs[j]);
            }
            assert forall|i: int, j: int| 0 <= i < j < rest.len() implies cell_index(
                (#[trigger] rest[i]).grid_position,
            ) < cell_index((#[trigger] rest[j]).grid_position) by {
                assert(rest[i] == glyphs[i] && rest[j] == glyphs[j]);
            }
        }
        lemma_cells_of_canonical(rest);
        let before = grid_of(rest);
        lemma_grid_len(rest);
        assert(cells == before.update(c, g.index));
        // every cell after `c` is empty
        assert forall|j: int| 0 <= j < glyphs.len() implies cell_index(
            (#[trigger] glyphs[j]).grid_position,
        ) < c + 1 by {
            if j < n {
                assert(cell_index(glyphs[j].grid_position) < cell_index(glyphs[n].grid_position));
            }
        }
        lemma_grid_zero_above(glyphs, c + 1);
        lemma_trailing_blanks(cells, c + 1);
        assert(cells.take(c + 1).drop_last() =~= cells.take(c));
        assert(cells.take(c + 1)[c] == g.index);
        // the cells before `c` are those of the shorter list
        lemma_grid_zero_above(rest, c);
        lemma_trailing_blanks(before, c);
        assert(cells.take(c) =~= before.take(c));
        lemma_cell_of_position(g.grid_position.x, g.grid_position.y);
        assert(cell_glyph(c, g.index) == g);
        assert(rest.push(g) =~= glyphs);
    }
}

/// Decoding the encoding of a frame gives the frame back: its timestamp,
/// and its glyphs one for one, when they are as decoding lists them (on
/// the grid, not blank, in strictly increasing cell order; see
/// `is_canonical`).
pub proof fn law_frame_round_trip(t: u32, glyphs: Seq<Glyph>)
    requires
        is_canonical(glyphs),
    ensures
        is_frame_encoding(encode_frame(t, grid_of(glyphs))),
        time_of(encode_frame(t, grid_of(glyphs))) == t,
        glyphs_of_cells(cells_of(encode_frame(t, grid_of(glyphs)))) == glyphs,
{
    law_decode_encode(t, grid_of(glyphs));
    lemma_cells_of_canonical(glyphs);
}

} // verus!
