//! Artlynk recordings carry their OSD as MSP DisplayPort commands inside
//! H.264 SEI user data. This module decodes the hexadecimal dump of one such
//! payload into glyphs and frames.
use vstd::prelude::*;

use crate::pattern::{
    captures_all, captures_model, group_of, group_text, groups_model, regex_captures,
};
use crate::frame::{is_blank, Frame, Glyph, GridPosition, GRID_HEIGHT, GRID_WIDTH};
use crate::text::{
    ascii_bytes, char_is_hex_digit, chars_of, find_char, find_char_in, find_pair, find_pair_in,
    hex_digits, hex_value, is_hex_byte, is_hex_digit, lemma_hex_digits_concat, shift, trim,
    trim_bounds, is_float_literal, is_float_text, is_whitespace, trim_start, trim_end,
};

verus! {

#[verifier::external_type_specification]
#[verifier::external_body]
pub struct ExFromHexError(hex::FromHexError);

/// The bytes that a string of hexadecimal digits spells, two digits per
/// byte, high digit first; `None` for an odd number of digits or any byte
/// that is not a hexadecimal digit.
pub open spec fn hex_decoding(digits: Seq<u8>) -> Option<Seq<u8>> {
    if digits.len() % 2 == 0 && forall|i: int| 0 <= i < digits.len() ==> is_hex_byte(#[trigger] digits[i]) {
        Some(
            Seq::new(
                digits.len() / 2,
                |i: int| (hex_value(digits[2 * i]) * 16 + hex_value(digits[2 * i + 1])) as u8,
            ),
        )
    } else {
        None
    }
}

/// `hex::decode`: the crate returns `Ok` exactly when the input has an even
/// length and every byte is a hexadecimal digit (either case), and then
/// each pair of digits gives one byte, high digit first. Which error it
/// reports otherwise is not stated.
#[verifier::external_body]
fn hex_decode(digits: &[u8]) -> (r: Result<Vec<u8>, hex::FromHexError>)
    ensures
        r is Ok <==> hex_decoding(digits@) is Some,
        r matches Ok(v) ==> v@ == hex_decoding(digits@).unwrap(),
{
    hex::decode(digits)
}

/// The part of one dump line that holds data: the trimmed line, after the
/// first `": "` when it has one (dumps prefix each line with an address).
pub open spec fn line_payload(line: Seq<char>) -> Seq<char> {
    let t = trim(line);
    match find_pair(t, ':', ' ') {
        Some(p) => t.subrange(p + 2, t.len() as int),
        None => t,
    }
}

/// The data parts of all lines of a dump, concatenated.
pub open spec fn payload_text(s: Seq<char>) -> Seq<char>
    decreases s.len(),
{
    match find_char(s, '\n') {
        Some(i) => if 0 <= i < s.len() {
            line_payload(s.take(i)) + payload_text(s.skip(i + 1))
        } else {
            Seq::empty()
        },
        None => line_payload(s),
    }
}

/// The hexadecimal digits of the data parts of a dump, as ASCII bytes.
pub open spec fn clean_hex(s: Seq<char>) -> Seq<u8> {
    ascii_bytes(hex_digits(payload_text(s)))
}

/// The payload without its filler: of every three bytes the third is
/// padding and is dropped.
pub open spec fn strip_padding(raw: Seq<u8>) -> Seq<u8>
    decreases raw.len(),
{
    if raw.len() == 0 {
        Seq::empty()
    } else if raw.len() % 3 == 0 {
        strip_padding(raw.drop_last())
    } else {
        strip_padding(raw.drop_last()).push(raw.last())
    }
}

/// An MSP DisplayPort "write string" command (`b6 03`) starts at `i`.
pub open spec fn is_command_at(data: Seq<u8>, i: int) -> bool {
    0 <= i && i + 1 < data.len() && data[i] == 0xb6 && data[i + 1] == 0x03
}

/// Start offsets below `n` of the commands in `data`, ascending.
pub open spec fn command_offsets_below(data: Seq<u8>, n: int) -> Seq<int>
    decreases n,
{
    if n <= 0 {
        Seq::empty()
    } else if is_command_at(data, n - 1) {
        command_offsets_below(data, n - 1).push(n - 1)
    } else {
        command_offsets_below(data, n - 1)
    }
}

/// Start offsets of all commands in `data`, ascending.
pub open spec fn command_offsets(data: Seq<u8>) -> Seq<int> {
    command_offsets_below(data, data.len() - 1)
}

/// Glyph code of a command: the two low bits of the attribute byte select
/// the font page, the data byte the character within it.
pub open spec fn character_code(attribute: u8, byte: u8) -> u16 {
    ((attribute % 4) * 256 + byte) as u16
}

/// `a + b`, saturated at 255.
pub open spec fn saturating_add_u8(a: u8, b: int) -> u8 {
    if a + b > 255 {
        255
    } else {
        (a + b) as u8
    }
}

/// Where the glyph bytes of command `i` end: one byte before the next
/// command (its length byte), or at the end of the data for the last.
pub open spec fn glyph_end(data: Seq<u8>, offs: Seq<int>, i: int) -> int {
    if i + 1 < offs.len() {
        if offs[i + 1] >= 1 {
            offs[i + 1] - 1
        } else {
            0
        }
    } else {
        data.len() as int
    }
}

/// The `(row, column, character)` entries written by command `i`: its
/// 5-byte header is `b6 03 row col attribute`, and each following glyph
/// byte is written one column further right (the column count wraps at
/// 256 and the column saturates at 255).
pub open spec fn command_glyphs(data: Seq<u8>, offs: Seq<int>, i: int) -> Seq<(u8, u8, u16)> {
    let s = offs[i];
    if s + 5 > data.len() {
        Seq::empty()
    } else {
        let first = s + 5;
        let end = glyph_end(data, offs, i);
        if first < end {
            Seq::new(
                (end - first) as nat,
                |j: int|
                    (
                        data[s + 2],
                        saturating_add_u8(data[s + 3], j % 256),
                        character_code(data[s + 4], data[first + j]),
                    ),
            )
        } else {
            Seq::empty()
        }
    }
}

/// The entries of the first `m` commands, in order.
pub open spec fn glyphs_upto(data: Seq<u8>, offs: Seq<int>, m: int) -> Seq<(u8, u8, u16)>
    decreases m,
{
    if m <= 0 {
        Seq::empty()
    } else {
        glyphs_upto(data, offs, m - 1) + command_glyphs(data, offs, m - 1)
    }
}

/// The entries of all commands of a de-padded payload; `None` when the
/// payload is shorter than 10 bytes, holds no command, or yields no entry.
pub open spec fn msp_glyphs(data: Seq<u8>) -> Option<Seq<(u8, u8, u16)>> {
    if data.len() < 10 {
        None
    } else {
        let offs = command_offsets(data);
        if offs.len() == 0 {
            None
        } else {
            let g = glyphs_upto(data, offs, offs.len() as int);
            if g.len() == 0 {
                None
            } else {
                Some(g)
            }
        }
    }
}

/// The entries of a hexadecimal dump of an SEI payload; `None` when its
/// digits do not decode or the payload holds no entry.
pub open spec fn msp_payload(text: Seq<char>) -> Option<Seq<(u8, u8, u16)>> {
    match hex_decoding(clean_hex(text)) {
        Some(raw) => msp_glyphs(strip_padding(raw)),
        None => None,
    }
}

/// The entries that land on the OSD grid and draw something, as glyphs.
pub open spec fn visible_glyphs(entries: Seq<(u8, u8, u16)>) -> Seq<Glyph>
    decreases entries.len(),
{
    if entries.len() == 0 {
        Seq::empty()
    } else {
        let (row, col, index) = entries.last();
        let rest = visible_glyphs(entries.drop_last());
        if (col as int) < GRID_WIDTH && (row as int) < GRID_HEIGHT && !is_blank(index) {
            rest.push(
                Glyph { index, grid_position: GridPosition { x: col as u32, y: row as u32 } },
            )
        } else {
            rest
        }
    }
}

/// The glyphs of the frame that an SEI payload dump describes, when it
/// describes one: the payload decodes and at least one entry is visible.
pub open spec fn sei_frame_glyphs(text: Seq<char>) -> Option<Seq<Glyph>> {
    match msp_payload(text) {
        Some(entries) => if visible_glyphs(entries).len() > 0 {
            Some(visible_glyphs(entries))
        } else {
            None
        },
        None => None,
    }
}

proof fn lemma_payload_step(s: Seq<char>, pos: int, i: int)
    requires
        0 <= pos <= i < s.len(),
        find_char(s.subrange(pos, s.len() as int), '\n') == Some(i - pos),
    ensures
        payload_text(s.subrange(pos, s.len() as int)) == line_payload(s.subrange(pos, i))
            + payload_text(s.subrange(i + 1, s.len() as int)),
{
    let t = s.subrange(pos, s.len() as int);
    assert(t.take(i - pos) =~= s.subrange(pos, i));
    assert(t.skip(i - pos + 1) =~= s.subrange(i + 1, s.len() as int));
}

/// The hexadecimal digits of the data parts of the dump `v`, as ASCII bytes.
fn clean_hex_bytes(v: &Vec<char>) -> (out: Vec<u8>)
    ensures
        out@ == clean_hex(v@),
{
    let len = v.len();
    let mut out: Vec<u8> = Vec::new();
    let ghost mut done: Seq<char> = Seq::empty();
    let mut pos: usize = 0;
    assert(v@.subrange(0, len as int) =~= v@);
    loop
        invariant_except_break
            hex_digits(payload_text(v@)) == done + hex_digits(
                payload_text(v@.subrange(pos as int, len as int)),
            ),
        invariant
            len == v@.len(),
            pos <= len,
            out@ == ascii_bytes(done),
        ensures
            out@ == ascii_bytes(hex_digits(payload_text(v@))),
        decreases len - pos,
    {
        let nl = find_char_in(v, pos, len, '\n');
        let end = match nl {
            Some(i) => i,
            None => len,
        };
        let (a, b) = trim_bounds(v, pos, end);
        let sep = find_pair_in(v, a, b, ':', ' ');
        let from = match sep {
            Some(p) => p + 2,
            None => a,
        };
        proof {
            let t = v@.subrange(a as int, b as int);
            assert(v@.subrange(pos as int, end as int) == v@.subrange(pos as int, len as int).take(
                end - pos,
            )) by {
                assert(v@.subrange(pos as int, end as int) =~= v@.subrange(
                    pos as int,
                    len as int,
                ).take(end - pos));
            }
            match sep {
                Some(p) => {
                    assert(find_pair(t, ':', ' ') == Some(p - a));
                    assert(t.subrange(p - a + 2, t.len() as int) =~= v@.subrange(
                        from as int,
                        b as int,
                    ));
                },
                None => {
                    assert(find_pair(t, ':', ' ') is None);
                    assert(t =~= v@.subrange(from as int, b as int));
                },
            }
            assert(line_payload(v@.subrange(pos as int, end as int)) == v@.subrange(
                from as int,
                b as int,
            ));
        }
        let ghost line_start = done;
        let mut k = from;
        while k < b
            invariant
                from <= k <= b <= len,
                len == v@.len(),
                out@ == ascii_bytes(done),
                done == line_start + hex_digits(v@.subrange(from as int, k as int)),
            decreases b - k,
        {
            let c = v[k];
            assert(v@.subrange(from as int, k + 1).drop_last() =~= v@.subrange(
                from as int,
                k as int,
            ));
            if char_is_hex_digit(c) {
                out.push(c as u8);
                proof {
                    done = done.push(c);
                    assert(line_start + hex_digits(v@.subrange(from as int, k + 1)) =~= done);
                }
                assert(out@ =~= ascii_bytes(done));
            }
            k = k + 1;
        }
        match nl {
            Some(i) => {
                proof {
                    lemma_payload_step(v@, pos as int, i as int);
                    lemma_hex_digits_concat(
                        line_payload(v@.subrange(pos as int, i as int)),
                        payload_text(v@.subrange(i + 1, len as int)),
                    );
                    assert(hex_digits(payload_text(v@)) =~= done + hex_digits(
                        payload_text(v@.subrange(i + 1, len as int)),
                    ));
                }
                pos = i + 1;
            },
            None => {
                proof {
                    let rest = v@.subrange(pos as int, len as int);
                    assert(rest =~= v@.subrange(pos as int, end as int));
                    assert(payload_text(rest) == line_payload(rest));
                    assert(hex_digits(payload_text(v@)) =~= done);
                }
                break ;
            },
        }
    }
    out
}


/// Drops every third byte (the filler) of a raw payload.
pub fn strip_padding_bytes(raw: &Vec<u8>) -> (data: Vec<u8>)
    ensures
        data@ == strip_padding(raw@),
{
    let mut data: Vec<u8> = Vec::with_capacity(raw.len());
    let mut i: usize = 0;
    while i < raw.len()
        invariant
            i <= raw@.len(),
            data@ == strip_padding(raw@.take(i as int)),
        decreases raw@.len() - i,
    {
        assert(raw@.take(i + 1).drop_last() =~= raw@.take(i as int));
        if (i + 1) % 3 != 0 {
            data.push(raw[i]);
        }
        i = i + 1;
    }
    assert(raw@.take(raw@.len() as int) =~= raw@);
    data
}

proof fn lemma_offsets_below(data: Seq<u8>, n: int)
    ensures
        forall|k: int|
            0 <= k < command_offsets_below(data, n).len() ==> {
                &&& is_command_at(data, #[trigger] command_offsets_below(data, n)[k])
                &&& command_offsets_below(data, n)[k] < n
            },
        forall|k: int, l: int|
            0 <= k < l < command_offsets_below(data, n).len() ==> command_offsets_below(data, n)[k]
                < command_offsets_below(data, n)[l],
    decreases n,
{
    if n > 0 {
        lemma_offsets_below(data, n - 1);
        let prev = command_offsets_below(data, n - 1);
        let cur = command_offsets_below(data, n);
        if is_command_at(data, n - 1) {
            assert(cur == prev.push(n - 1));
            assert forall|k: int| 0 <= k < cur.len() implies is_command_at(data, #[trigger] cur[k])
                && cur[k] < n by {
                if k < prev.len() {
                    assert(cur[k] == prev[k]);
                }
            }
            assert forall|k: int, l: int| 0 <= k < l < cur.len() implies cur[k] < cur[l] by {
                assert(cur[k] == prev[k]);
                if l < prev.len() {
                    assert(cur[l] == prev[l]);
                }
            }
        }
    }
}

/// Start offsets of the `b6 03` commands in `data`, ascending.
fn find_command_offsets(data: &Vec<u8>) -> (offsets: Vec<usize>)
    ensures
        offsets@.len() == command_offsets(data@).len(),
        forall|k: int| 0 <= k < offsets@.len() ==> offsets@[k] == command_offsets(data@)[k],
{
    let mut offsets: Vec<usize> = Vec::new();
    let n = data.len().saturating_sub(1);
    let ghost limit = data@.len() - 1;
    assert(n <= 0 ==> command_offsets_below(data@, limit).len() == 0);
    let mut i: usize = 0;
    while i < n
        invariant
            n == if data@.len() >= 1 { data@.len() - 1 } else { 0 },
            i <= n,
            offsets@.len() == command_offsets_below(data@, i as int).len(),
            forall|k: int|
                0 <= k < offsets@.len() ==> offsets@[k] == command_offsets_below(data@, i as int)[k],
        decreases n - i,
    {
        if data[i] == 0xb6 && data[i + 1] == 0x03 {
            offsets.push(i);
        }
        i = i + 1;
    }
    offsets
}

/// Decodes the hexadecimal dump of an MSP DisplayPort SEI payload into
/// `(row, column, character)` entries (see `msp_payload`).
pub fn parse_msp_payload(hex_string: &str) -> (r: Option<Vec<(u8, u8, u16)>>)
    ensures
        match r {
            Some(v) => msp_payload(hex_string@) == Some(v@),
            None => msp_payload(hex_string@) is None,
        },
{
    let chars = chars_of(hex_string);
    let clean = clean_hex_bytes(&chars);
    let raw = match hex_decode(clean.as_slice()) {
        Ok(b) => b,
        Err(_) => {
            return None;
        },
    };
    let data = strip_padding_bytes(&raw);
    if data.len() < 10 {
        return None;
    }
    let offsets = find_command_offsets(&data);
    if offsets.len() == 0 {
        return None;
    }
    let ghost offs = command_offsets(data@);
    proof {
        lemma_offsets_below(data@, data@.len() - 1);
    }
    let len = data.len();
    let mut active: Vec<(u8, u8, u16)> = Vec::new();
    let mut i: usize = 0;
    while i < offsets.len()
        invariant
            len == data@.len(),
            offs == command_offsets(data@),
            offsets@.len() == offs.len(),
            forall|k: int| 0 <= k < offsets@.len() ==> offsets@[k] == offs[k],
            forall|k: int| 0 <= k < offs.len() ==> is_command_at(data@, #[trigger] offs[k]),
            forall|k: int, l: int| 0 <= k < l < offs.len() ==> offs[k] < offs[l],
            i <= offsets@.len(),
            active@ == glyphs_upto(data@, offs, i as int),
        decreases offsets@.len() - i,
    {
        let start = offsets[i];
        assert(is_command_at(data@, offs[i as int]));
        if len - start >= 5 {
            let row = data[start + 2];
            let col = data[start + 3];
            let attribute = data[start + 4];
            let glyph_start = start + 5;
            let end_offset = if i + 1 < offsets.len() {
                assert(is_command_at(data@, offs[i + 1]));
                offsets[i + 1].saturating_sub(1)
            } else {
                len
            };
            assert(end_offset == glyph_end(data@, offs, i as int));
            let ghost before = active@;
            let ghost run = command_glyphs(data@, offs, i as int);
            if glyph_start < end_offset {
                let num_glyphs = end_offset - glyph_start;
                let mut j: usize = 0;
                while j < num_glyphs
                    invariant
                        glyph_start + num_glyphs == end_offset,
                        end_offset <= len,
                        len == data@.len(),
                        start + 5 == glyph_start,
                        row == data@[start + 2],
                        col == data@[start + 3],
                        attribute == data@[start + 4],
                        run.len() == num_glyphs,
                        forall|q: int| 0 <= q < num_glyphs ==> #[trigger] run[q] == (
                            row,
                            saturating_add_u8(col, q % 256),
                            character_code(attribute, data@[glyph_start + q]),
                        ),
                        j <= num_glyphs,
                        active@ == before + run.take(j as int),
                    decreases num_glyphs - j,
                {
                    let byte = data[glyph_start + j];
                    let character: u16 = ((attribute % 4) as u16) * 256 + byte as u16;
                    let step = (j % 256) as u8;
                    let column = col.saturating_add(step);
                    active.push((row, column, character));
                    assert(before + run.take(j + 1) =~= (before + run.take(j as int)).push(run[j as int]));
                    j = j + 1;
                }
                assert(run.take(num_glyphs as int) =~= run);
            } else {
                assert(run =~= Seq::<(u8, u8, u16)>::empty());
                assert(before + run =~= before);
            }
        } else {
            assert(command_glyphs(data@, offs, i as int) =~= Seq::<(u8, u8, u16)>::empty());
            assert(active@ + command_glyphs(data@, offs, i as int) =~= active@);
        }
        i = i + 1;
    }
    if active.len() == 0 {
        None
    } else {
        Some(active)
    }
}

/// Builds the frame that an SEI payload dump describes (see
/// `sei_frame_glyphs`), shown from `time_millis` on.
pub fn frame_from_sei(time_millis: u32, hex_string: &str) -> (r: Option<Frame>)
    ensures
        match r {
            Some(f) => f.time_millis == time_millis && sei_frame_glyphs(hex_string@) == Some(
                f.glyphs@,
            ),
            None => sei_frame_glyphs(hex_string@) is None,
        },
{
    let entries = match parse_msp_payload(hex_string) {
        Some(e) => e,
        None => {
            return None;
        },
    };
    let mut glyphs: Vec<Glyph> = Vec::new();
    let mut i: usize = 0;
    while i < entries.len()
        invariant
            i <= entries@.len(),
            glyphs@ == visible_glyphs(entries@.take(i as int)),
        decreases entries@.len() - i,
    {
        let (row, col, index) = entries[i];
        assert(entries@.take(i + 1).drop_last() =~= entries@.take(i as int));
        if (col as usize) < GRID_WIDTH && (row as usize) < GRID_HEIGHT && index != 0x00 && index
            != 0x20 {
            glyphs.push(
                Glyph { index, grid_position: GridPosition { x: col as u32, y: row as u32 } },
            );
        }
        i = i + 1;
    }
    assert(entries@.take(entries@.len() as int) =~= entries@);
    if glyphs.len() == 0 {
        None
    } else {
        Some(Frame { time_millis, glyphs })
    }
}

/// The value of a hexadecimal digit byte (see `hex_value`).
fn hex_byte_value(b: u8) -> (v: u8)
    requires
        is_hex_byte(b),
    ensures
        v == hex_value(b),
        v < 16,
{
    if 48 <= b && b <= 57 {
        b - 48
    } else if 97 <= b && b <= 102 {
        b - 87
    } else {
        b - 55
    }
}

/// The bytes spelled by the hexadecimal digits of `hex` (all other
/// characters ignored), read in pairs, with every third byte (the filler)
/// dropped. The digits must come in pairs.
pub fn parse_hex(hex: &str) -> (data: Vec<u8>)
    requires
        hex_digits(hex@).len() % 2 == 0,
    ensures
        hex_decoding(ascii_bytes(hex_digits(hex@))) is Some,
        data@ == strip_padding(hex_decoding(ascii_bytes(hex_digits(hex@))).unwrap()),
{
    let chars = chars_of(hex);
    let mut clean: Vec<u8> = Vec::new();
    let mut i: usize = 0;
    while i < chars.len()
        invariant
            chars@ == hex@,
            i <= chars@.len(),
            clean@ == ascii_bytes(hex_digits(chars@.take(i as int))),
        decreases chars@.len() - i,
    {
        assert(chars@.take(i + 1).drop_last() =~= chars@.take(i as int));
        if char_is_hex_digit(chars[i]) {
            clean.push(chars[i] as u8);
            assert(clean@ =~= ascii_bytes(hex_digits(chars@.take(i + 1))));
        }
        i = i + 1;
    }
    assert(chars@.take(chars@.len() as int) =~= chars@);
    let ghost digits = clean@;
    let ghost hd = hex_digits(hex@);
    assert forall|k: int| 0 <= k < hd.len() implies is_hex_digit(#[trigger] hd[k]) by {
        lemma_hex_digits_are_digits(hex@, k);
    }
    assert(forall|k: int| 0 <= k < digits.len() ==> is_hex_byte(#[trigger] digits[k])) by {
        assert forall|k: int| 0 <= k < digits.len() implies is_hex_byte(#[trigger] digits[k]) by {
            assert(is_hex_digit(hd[k]));
            assert(digits[k] == hd[k] as u8);
        }
    }
    let ghost decoded = hex_decoding(digits).unwrap();
    let mut raw: Vec<u8> = Vec::new();
    let mut p: usize = 0;
    while p < clean.len() / 2
        invariant
            clean@ == digits,
            digits.len() % 2 == 0,
            forall|k: int| 0 <= k < digits.len() ==> is_hex_byte(#[trigger] digits[k]),
            decoded == hex_decoding(digits).unwrap(),
            p <= digits.len() / 2,
            raw@ == decoded.take(p as int),
        decreases digits.len() / 2 - p,
    {
        let hi = hex_byte_value(clean[2 * p]);
        let lo = hex_byte_value(clean[2 * p + 1]);
        raw.push(hi * 16 + lo);
        assert(raw@ =~= decoded.take(p + 1));
        p = p + 1;
    }
    assert(decoded.take(decoded.len() as int) =~= decoded);
    strip_padding_bytes(&raw)
}

/// Every character that `hex_digits` keeps is a hexadecimal digit.
proof fn lemma_hex_digits_are_digits(s: Seq<char>, k: int)
    requires
        0 <= k < hex_digits(s).len(),
    ensures
        is_hex_digit(hex_digits(s)[k]),
    decreases s.len(),
{
    if s.len() > 0 {
        let rest = hex_digits(s.drop_last());
        if is_hex_digit(s.last()) && k == rest.len() {
        } else {
            lemma_hex_digits_are_digits(s.drop_last(), k);
        }
    }
}

/// One SEI user-data entry of a video: when it is shown and the
/// hexadecimal dump of its payload.
pub struct SeiEntry {
    pub time_millis: u32,
    pub hex: String,
}

/// How far the extraction of an OSD from a video has come.
#[derive(Clone, Copy, Debug, PartialEq, Eq, Structural)]
pub enum ExtractState {
    /// Nothing done yet.
    Start,
    /// Waiting to learn whether an OSD file already sits next to the video.
    AwaitExisting,
    /// Waiting for the entries of the first seconds of the video.
    AwaitQuickScan,
    /// Waiting for the entries of the whole video.
    AwaitFullScan,
    /// Finished.
    Done,
}

/// What the outside world reports to the extraction.
pub enum ExtractEvent {
    /// Start the extraction.
    Begin,
    /// Whether an OSD file already sits next to the video.
    ExistingOsdFile(bool),
    /// The SEI entries found by the scan that was asked for.
    SeiEntries(Vec<SeiEntry>),
}

/// The OSD recovered from the SEI data of a video.
pub struct ExtractedOsd {
    /// The frames, in the order of their entries.
    pub frames: Vec<Frame>,
    /// The number of frames, saturated at `u32::MAX`.
    pub frame_count: u32,
}

/// What the extraction asks of the outside world next.
pub enum ExtractAction {
    /// Look whether an OSD file sits next to the video.
    CheckExistingOsdFile,
    /// Open the OSD file next to the video and use it; extraction ends.
    OpenExistingOsdFile,
    /// Scan the video's SEI entries, the first `limit_seconds` seconds only
    /// when given.
    ScanSei { limit_seconds: Option<u64> },
    /// Save and use the extracted OSD; extraction ends.
    Extracted(ExtractedOsd),
    /// The video holds no usable OSD; extraction ends.
    NoOsd,
}

/// Seconds of video that the first, quick scan covers.
pub const QUICK_SCAN_SECONDS: u64 = 2;

/// The events that `state` can take.
pub open spec fn accepts(state: ExtractState, event: ExtractEvent) -> bool {
    match state {
        ExtractState::Start => event is Begin,
        ExtractState::AwaitExisting => event is ExistingOsdFile,
        ExtractState::AwaitQuickScan => event is SeiEntries,
        ExtractState::AwaitFullScan => event is SeiEntries,
        ExtractState::Done => false,
    }
}

/// Whether `state` can take `event` (see `accepts`).
pub fn step_accepts(state: ExtractState, event: &ExtractEvent) -> (r: bool)
    ensures
        r == accepts(state, *event),
{
    match state {
        ExtractState::Start => matches!(event, ExtractEvent::Begin),
        ExtractState::AwaitExisting => matches!(event, ExtractEvent::ExistingOsdFile(_)),
        ExtractState::AwaitQuickScan => matches!(event, ExtractEvent::SeiEntries(_)),
        ExtractState::AwaitFullScan => matches!(event, ExtractEvent::SeiEntries(_)),
        ExtractState::Done => false,
    }
}

/// A frame as a plain value: its timestamp and glyphs.
pub open spec fn frame_model(f: Frame) -> (u32, Seq<Glyph>) {
    (f.time_millis, f.glyphs@)
}

/// The frames that a list of SEI entries describe, in order: each entry
/// whose payload describes a frame (see `sei_frame_glyphs`) gives one.
pub open spec fn sei_frames(entries: Seq<SeiEntry>) -> Seq<(u32, Seq<Glyph>)>
    decreases entries.len(),
{
    if entries.len() == 0 {
        Seq::empty()
    } else {
        let e = entries.last();
        let rest = sei_frames(entries.drop_last());
        match sei_frame_glyphs(e.hex@) {
            Some(g) => rest.push((e.time_millis, g)),
            None => rest,
        }
    }
}

/// Builds the frames of `entries` (see `sei_frames`).
pub fn frames_from_sei(entries: &Vec<SeiEntry>) -> (frames: Vec<Frame>)
    ensures
        frames_model(frames@) == sei_frames(entries@),
{
    let mut frames: Vec<Frame> = Vec::new();
    let mut i: usize = 0;
    while i < entries.len()
        invariant
            i <= entries@.len(),
            frames_model(frames@) == sei_frames(entries@.take(i as int)),
        decreases entries@.len() - i,
    {
        let entry = &entries[i];
        assert(entries@.take(i + 1).drop_last() =~= entries@.take(i as int));
        let ghost before = frames@;
        match frame_from_sei(entry.time_millis, entry.hex.as_str()) {
            Some(f) => {
                frames.push(f);
                assert(frames_model(frames@) =~= frames_model(before).push(frame_model(f)));
            },
            None => {},
        }
        i = i + 1;
    }
    assert(entries@.take(entries@.len() as int) =~= entries@);
    frames
}

/// The frames of `frames` as plain values.
pub open spec fn frames_model(frames: Seq<Frame>) -> Seq<(u32, Seq<Glyph>)> {
    frames.map_values(|f: Frame| frame_model(f))
}

/// The frame count recorded for `n` frames: `n`, saturated at `u32::MAX`.
pub open spec fn saturated_count(n: nat) -> u32 {
    if n > u32::MAX {
        u32::MAX
    } else {
        n as u32
    }
}

/// The outcome of one extraction step (see `extract_osd_from_video`).
pub open spec fn extract_step(state: ExtractState, event: ExtractEvent, next: ExtractState, action: ExtractAction) -> bool {
    match state {
        ExtractState::Start => next == ExtractState::AwaitExisting && action is CheckExistingOsdFile,
        ExtractState::AwaitExisting => match event {
            ExtractEvent::ExistingOsdFile(true) => next == ExtractState::Done
                && action is OpenExistingOsdFile,
            _ => next == ExtractState::AwaitQuickScan && action == (ExtractAction::ScanSei {
                limit_seconds: Some(QUICK_SCAN_SECONDS),
            }),
        },
        ExtractState::AwaitQuickScan => match event {
            ExtractEvent::SeiEntries(e) => if e@.len() == 0 {
                next == ExtractState::Done && action is NoOsd
            } else {
                next == ExtractState::AwaitFullScan && action == (ExtractAction::ScanSei {
                    limit_seconds: None,
                })
            },
            _ => false,
        },
        ExtractState::AwaitFullScan => next == ExtractState::Done && match event {
            ExtractEvent::SeiEntries(e) => if sei_frames(e@).len() == 0 {
                action is NoOsd
            } else {
                match action {
                    ExtractAction::Extracted(osd) => frames_model(osd.frames@) == sei_frames(e@)
                        && osd.frame_count == saturated_count(sei_frames(e@).len()),
                    _ => false,
                }
            },
            _ => false,
        },
        ExtractState::Done => false,
    }
}

/// One step of extracting the OSD of an Artlynk video from its SEI data:
/// given the state and what the outside world reports, the next state and
/// what to ask of it (see `extract_step`). An OSD file already next to the
/// video is used as it is; otherwise the first seconds are scanned, and
/// only when they hold SEI entries is the whole video scanned and its
/// frames extracted.
pub fn extract_osd_from_video(state: ExtractState, event: ExtractEvent) -> (r: (
    ExtractState,
    ExtractAction,
))
    requires
        accepts(state, event),
    ensures
        extract_step(state, event, r.0, r.1),
{
    match state {
        ExtractState::Start => (ExtractState::AwaitExisting, ExtractAction::CheckExistingOsdFile),
        ExtractState::AwaitExisting => {
            match event {
                ExtractEvent::ExistingOsdFile(true) => (
                    ExtractState::Done,
                    ExtractAction::OpenExistingOsdFile,
                ),
                _ => (
                    ExtractState::AwaitQuickScan,
                    ExtractAction::ScanSei { limit_seconds: Some(QUICK_SCAN_SECONDS) },
                ),
            }
        },
        ExtractState::AwaitQuickScan => {
            match event {
                ExtractEvent::SeiEntries(e) => {
                    if e.len() == 0 {
                        (ExtractState::Done, ExtractAction::NoOsd)
                    } else {
                        (ExtractState::AwaitFullScan, ExtractAction::ScanSei { limit_seconds: None })
                    }
                },
                _ => (ExtractState::Done, ExtractAction::NoOsd),
            }
        },
        _ => {
            match event {
                ExtractEvent::SeiEntries(e) => {
                    let frames = frames_from_sei(&e);
                    if frames.len() == 0 {
                        (ExtractState::Done, ExtractAction::NoOsd)
                    } else {
                        let frame_count: u32 = if frames.len() > u32::MAX as usize {
                            u32::MAX
                        } else {
                            frames.len() as u32
                        };
                        (
                            ExtractState::Done,
                            ExtractAction::Extracted(ExtractedOsd { frames, frame_count }),
                        )
                    }
                },
                _ => (ExtractState::Done, ExtractAction::NoOsd),
            }
        },
    }
}

/// The pattern of one SEI entry in ffmpeg's `showinfo` log: its
/// presentation time (group 1) and, further on, its user data as
/// hexadecimal text (group 2).
pub open spec fn sei_log_pattern() -> Seq<char> {
    "(?s)pts_time:([\\d.]+).*?User Data=([0-9a-fA-F\\s]+)"@
}

/// The `(time, hex dump)` texts of the matches, in order; a match lacking
/// either group, or whose time does not read as a floating-point number
/// (such as `1.2.3`), is skipped.
pub open spec fn sei_log_pairs(caps: Seq<Seq<Option<Seq<char>>>>) -> Seq<(Seq<char>, Seq<char>)>
    decreases caps.len(),
{
    if caps.len() == 0 {
        Seq::empty()
    } else {
        let rest = sei_log_pairs(caps.drop_last());
        match (group_of(caps.last(), 1), group_of(caps.last(), 2)) {
            (Some(t), Some(h)) => if is_float_literal(t) {
                rest.push((t, h))
            } else {
                rest
            },
            _ => rest,
        }
    }
}

/// Pairs of strings as plain values.
pub open spec fn pairs_model(v: Seq<(String, String)>) -> Seq<(Seq<char>, Seq<char>)> {
    v.map_values(|p: (String, String)| (p.0@, p.1@))
}

/// The SEI entries of ffmpeg's `showinfo` log, as the text of their
/// presentation time in seconds and the hexadecimal dump of their user
/// data (see `sei_log_pairs`); `None` when the regular-expression engine
/// rejects the entry pattern.
pub fn sei_log_entries(log: &str) -> (r: Option<Vec<(String, String)>>)
    ensures
        match r {
            Some(v) => regex_captures(sei_log_pattern(), log@) matches Some(caps) && pairs_model(
                v@,
            ) == sei_log_pairs(caps),
            None => regex_captures(sei_log_pattern(), log@) is None,
        },
{
    match captures_all("(?s)pts_time:([\\d.]+).*?User Data=([0-9a-fA-F\\s]+)", log) {
        Some(caps) => Some(sei_entries_of_captures(&caps)),
        None => None,
    }
}

/// The `(time, hex dump)` texts of the matches `caps` of the entry pattern
/// (see `sei_log_pairs`).
pub fn sei_entries_of_captures(caps: &Vec<Vec<Option<String>>>) -> (r: Vec<(String, String)>)
    ensures
        pairs_model(r@) == sei_log_pairs(captures_model(caps@)),
{
    let ghost all = captures_model(caps@);
    let mut out: Vec<(String, String)> = Vec::new();
    let mut i: usize = 0;
    while i < caps.len()
        invariant
            i <= caps@.len(),
            all.len() == caps@.len(),
            forall|k: int| 0 <= k < caps@.len() ==> #[trigger] all[k] == groups_model(caps@[k]@),
            pairs_model(out@) == sei_log_pairs(all.take(i as int)),
        decreases caps@.len() - i,
    {
        assert(all.take(i + 1).drop_last() =~= all.take(i as int));
        let t = group_text(&caps[i], 1);
        let h = group_text(&caps[i], 2);
        let ghost before = out@;
        match (t, h) {
            (Some(t), Some(h)) => {
                if is_float_text(t.as_str()) {
                    out.push((t, h));
                    assert(pairs_model(out@) =~= pairs_model(before).push((t@, h@)));
                }
            },
            _ => {},
        }
        i = i + 1;
    }
    assert(all.take(all.len() as int) =~= all);
    out
}

/// Dropping the filler keeps `n - n / 3` of `n` bytes, and byte `k` of
/// the result is byte `k + k / 2` of the payload (bytes 0, 1, 3, 4, 6, ...).
#[verifier::spinoff_prover]
pub proof fn law_strip_padding_closed_form(raw: Seq<u8>)
    ensures
        strip_padding(raw).len() == raw.len() - raw.len() / 3,
        forall|k: int|
            0 <= k < strip_padding(raw).len() ==> #[trigger] strip_padding(raw)[k] == raw[k + k / 2],
    decreases raw.len(),
{
    if raw.len() > 0 {
        let prev = raw.drop_last();
        law_strip_padding_closed_form(prev);
        let n = raw.len() as int;
        let m = n / 3;
        assert(n == 3 * m + n % 3);
        if n % 3 != 0 {
            let k0 = prev.len() - prev.len() / 3;
            assert(k0 + k0 / 2 == n - 1);
        }
        assert forall|k: int| 0 <= k < strip_padding(raw).len() implies #[trigger] strip_padding(
            raw,
        )[k] == raw[k + k / 2] by {
            if k < strip_padding(prev).len() {
                assert(strip_padding(raw)[k] == strip_padding(prev)[k]);
                assert(k + k / 2 < n - 1);
            }
        }
    }
}

proof fn lemma_glyph_codes_upto(data: Seq<u8>, offs: Seq<int>, m: int)
    ensures
        forall|j: int| 0 <= j < glyphs_upto(data, offs, m).len() ==> (#[trigger] glyphs_upto(
            data,
            offs,
            m,
        )[j]).2 < 1024,
    decreases m,
{
    if m > 0 {
        lemma_glyph_codes_upto(data, offs, m - 1);
        let a = glyphs_upto(data, offs, m - 1);
        let b = command_glyphs(data, offs, m - 1);
        assert forall|j: int| 0 <= j < (a + b).len() implies (#[trigger] (a + b)[j]).2 < 1024 by {
            if j >= a.len() {
                let s = offs[m - 1];
                let attr = data[s + 4];
                let byte = data[s + 5 + (j - a.len())];
                assert((attr % 4) * 256 + byte < 1024);
            }
        }
    }
}

/// Every entry that a payload yields draws a character of the 1024-glyph
/// font (two font-page bits and one byte), and a payload that yields
/// entries yields at least one.
pub proof fn law_character_codes_bounded(text: Seq<char>)
    ensures
        msp_payload(text) matches Some(v) ==> v.len() > 0 && forall|j: int|
            0 <= j < v.len() ==> (#[trigger] v[j]).2 < 1024,
{
    if let Some(raw) = hex_decoding(clean_hex(text)) {
        let data = strip_padding(raw);
        lemma_glyph_codes_upto(data, command_offsets(data), command_offsets(data).len() as int);
    }
}

/// `s` without its space characters.
pub open spec fn without_spaces(s: Seq<char>) -> Seq<char>
    decreases s.len(),
{
    if s.len() == 0 {
        Seq::empty()
    } else if s.last() == ' ' {
        without_spaces(s.drop_last())
    } else {
        without_spaces(s.drop_last()).push(s.last())
    }
}

/// `c` does not occur in `s`.
pub open spec fn lacks(s: Seq<char>, c: char) -> bool {
    forall|i: int| 0 <= i < s.len() ==> #[trigger] s[i] != c
}

proof fn lemma_find_char_absent(s: Seq<char>, c: char)
    requires
        lacks(s, c),
    ensures
        find_char(s, c) is None,
    decreases s.len(),
{
    if s.len() > 0 {
        assert(s[0] != c);
        assert(lacks(s.drop_first(), c)) by {
            assert forall|i: int| 0 <= i < s.drop_first().len() implies #[trigger] s.drop_first()[i]
                != c by {
                assert(s.drop_first()[i] == s[i + 1]);
            }
        }
        lemma_find_char_absent(s.drop_first(), c);
    }
}

proof fn lemma_find_pair_absent(s: Seq<char>)
    requires
        lacks(s, ':'),
    ensures
        find_pair(s, ':', ' ') is None,
    decreases s.len(),
{
    if s.len() >= 2 {
        assert(s[0] != ':');
        assert(lacks(s.drop_first(), ':')) by {
            assert forall|i: int| 0 <= i < s.drop_first().len() implies #[trigger] s.drop_first()[i]
                != ':' by {
                assert(s.drop_first()[i] == s[i + 1]);
            }
        }
        lemma_find_pair_absent(s.drop_first());
    }
}

proof fn lemma_find_pair_after(a: Seq<char>, rest: Seq<char>)
    requires
        lacks(a, ':'),
    ensures
        find_pair(a + seq![':', ' '] + rest, ':', ' ') == Some(a.len() as int),
    decreases a.len(),
{
    let s = a + seq![':', ' '] + rest;
    if a.len() == 0 {
        assert(s[0] == ':' && s[1] == ' ');
    } else {
        assert(s[0] == a[0] && a[0] != ':');
        assert(s.drop_first() =~= a.drop_first() + seq![':', ' '] + rest);
        assert(lacks(a.drop_first(), ':')) by {
            assert forall|i: int| 0 <= i < a.drop_first().len() implies #[trigger] a.drop_first()[i]
                != ':' by {
                assert(a.drop_first()[i] == a[i + 1]);
            }
        }
        lemma_find_pair_after(a.drop_first(), rest);
    }
}

proof fn lemma_trim_start_lacks(s: Seq<char>, c: char)
    requires
        lacks(s, c),
    ensures
        lacks(trim_start(s), c),
    decreases s.len(),
{
    if s.len() > 0 && is_whitespace(s[0]) {
        assert(lacks(s.drop_first(), c)) by {
            assert forall|i: int| 0 <= i < s.drop_first().len() implies #[trigger] s.drop_first()[i]
                != c by {
                assert(s.drop_first()[i] == s[i + 1]);
            }
        }
        lemma_trim_start_lacks(s.drop_first(), c);
    }
}

proof fn lemma_trim_end_lacks(s: Seq<char>, c: char)
    requires
        lacks(s, c),
    ensures
        lacks(trim_end(s), c),
    decreases s.len(),
{
    if s.len() > 0 && is_whitespace(s.last()) {
        assert(lacks(s.drop_last(), c)) by {
            assert forall|i: int| 0 <= i < s.drop_last().len() implies #[trigger] s.drop_last()[i]
                != c by {
                assert(s.drop_last()[i] == s[i]);
            }
        }
        lemma_trim_end_lacks(s.drop_last(), c);
    }
}

proof fn lemma_hex_digits_trim_start(s: Seq<char>)
    ensures
        hex_digits(trim_start(s)) == hex_digits(s),
    decreases s.len(),
{
    if s.len() > 0 && is_whitespace(s[0]) {
        lemma_hex_digits_trim_start(s.drop_first());
        assert(s =~= seq![s[0]] + s.drop_first());
        lemma_hex_digits_concat(seq![s[0]], s.drop_first());
        let one: Seq<char> = seq![s[0]];
        assert(one.drop_last() =~= Seq::<char>::empty());
        assert(one.last() == s[0]);
        assert(!is_hex_digit(s[0]));
        assert(hex_digits(Seq::<char>::empty()) =~= Seq::<char>::empty());
        assert(hex_digits(one) =~= Seq::<char>::empty());
        assert(Seq::<char>::empty() + hex_digits(s.drop_first()) =~= hex_digits(s.drop_first()));
    }
}

proof fn lemma_hex_digits_trim_end(s: Seq<char>)
    ensures
        hex_digits(trim_end(s)) == hex_digits(s),
    decreases s.len(),
{
    if s.len() > 0 && is_whitespace(s.last()) {
        lemma_hex_digits_trim_end(s.drop_last());
    }
}

proof fn lemma_trim_start_before_colon(a: Seq<char>, rest: Seq<char>)
    requires
        rest.len() > 0,
        rest[0] == ':',
    ensures
        trim_start(a + rest) == trim_start(a) + rest,
    decreases a.len(),
{
    if a.len() == 0 {
        assert(a + rest =~= rest);
        assert(trim_start(a) + rest =~= rest);
    } else {
        assert((a + rest)[0] == a[0]);
        assert((a + rest).drop_first() =~= a.drop_first() + rest);
        lemma_trim_start_before_colon(a.drop_first(), rest);
    }
}

proof fn lemma_trim_end_keeps_front(x: Seq<char>, s: Seq<char>, k: int)
    requires
        0 <= k < s.len(),
        !is_whitespace(s[k]),
    ensures
        trim_end(x + s) == x + trim_end(s),
    decreases s.len(),
{
    let xs = x + s;
    assert(xs.last() == s.last());
    if is_whitespace(s.last()) {
        assert(k < s.len() - 1);
        assert(xs.drop_last() =~= x + s.drop_last());
        lemma_trim_end_keeps_front(x, s.drop_last(), k);
    }
}

/// A dump of one line without `:` reads as its own hexadecimal digits.
proof fn lemma_plain_line_hex(s: Seq<char>)
    requires
        lacks(s, ':'),
        lacks(s, '\n'),
    ensures
        clean_hex(s) == ascii_bytes(hex_digits(s)),
{
    lemma_find_char_absent(s, '\n');
    lemma_trim_start_lacks(s, ':');
    lemma_trim_end_lacks(trim_start(s), ':');
    lemma_find_pair_absent(trim(s));
    lemma_hex_digits_trim_start(s);
    lemma_hex_digits_trim_end(trim_start(s));
}

proof fn lemma_hex_digits_without_spaces(s: Seq<char>)
    ensures
        hex_digits(without_spaces(s)) == hex_digits(s),
    decreases s.len(),
{
    if s.len() > 0 {
        lemma_hex_digits_without_spaces(s.drop_last());
        let w = without_spaces(s.drop_last());
        if s.last() != ' ' {
            assert(without_spaces(s) == w.push(s.last()));
            assert(w.push(s.last()).drop_last() =~= w);
        }
    }
}

/// An address before a dump line changes nothing, and neither do spaces:
/// for one-line dumps `s1` and `s3` without `:`, prefixing `s1` with an
/// address and `": "` (an address without `:` or a line break), or writing
/// `s1` with spaces added or removed (`s3`), gives the same entries. The
/// line must hold something besides whitespace, or the trimmed line would
/// end at the address's colon.
pub proof fn law_payload_address_and_spaces(addr: Seq<char>, s1: Seq<char>, s3: Seq<char>)
    requires
        lacks(addr, ':'),
        lacks(addr, '\n'),
        lacks(s1, ':'),
        lacks(s1, '\n'),
        lacks(s3, ':'),
        lacks(s3, '\n'),
        exists|k: int| 0 <= k < s1.len() && !is_whitespace(#[trigger] s1[k]),
        without_spaces(s1) == without_spaces(s3),
    ensures
        msp_payload(addr + ": "@ + s1) == msp_payload(s1),
        msp_payload(s3) == msp_payload(s1),
{
    lemma_plain_line_hex(s1);
    lemma_plain_line_hex(s3);
    lemma_hex_digits_without_spaces(s1);
    lemma_hex_digits_without_spaces(s3);
    // the addressed line
    let sep: Seq<char> = seq![':', ' '];
    assert(": "@ =~= sep) by {
        reveal_strlit(": ");
    }
    let s2 = addr + sep + s1;
    assert(addr + ": "@ + s1 == s2);
    assert(lacks(s2, '\n')) by {
        assert forall|i: int| 0 <= i < s2.len() implies #[trigger] s2[i] != '\n' by {
            if i < addr.len() {
                assert(s2[i] == addr[i]);
            } else if i >= addr.len() + 2 {
                assert(s2[i] == s1[i - addr.len() - 2]);
            }
        }
    }
    lemma_find_char_absent(s2, '\n');
    let k = choose|k: int| 0 <= k < s1.len() && !is_whitespace(#[trigger] s1[k]);
    assert(s2 =~= addr + (sep + s1));
    lemma_trim_start_before_colon(addr, sep + s1);
    let ta = trim_start(addr);
    assert(trim_start(s2) =~= (ta + sep) + s1);
    lemma_trim_end_keeps_front(ta + sep, s1, k);
    let t = trim(s2);
    assert(t =~= ta + sep + trim_end(s1));
    lemma_trim_start_lacks(addr, ':');
    lemma_find_pair_after(ta, trim_end(s1));
    assert(t.subrange(ta.len() + 2int, t.len() as int) =~= trim_end(s1));
    assert(payload_text(s2) == trim_end(s1));
    lemma_hex_digits_trim_end(s1);
}

/// Filler bytes do not matter: two payloads of the same length that agree
/// on every byte but the fillers (every third byte) lose their fillers to
/// the same bytes.
pub proof fn law_strip_padding_ignores_filler(r1: Seq<u8>, r2: Seq<u8>)
    requires
        r1.len() == r2.len(),
        forall|i: int| 0 <= i < r1.len() && (i + 1) % 3 != 0 ==> #[trigger] r1[i] == r2[i],
    ensures
        strip_padding(r1) == strip_padding(r2),
{
    law_strip_padding_closed_form(r1);
    law_strip_padding_closed_form(r2);
    assert forall|k: int| 0 <= k < strip_padding(r1).len() implies #[trigger] strip_padding(r1)[k]
        == strip_padding(r2)[k] by {
        let j = k + k / 2;
        assert((j + 1) % 3 != 0);
        assert(0 <= j < r1.len());
        assert(r1[j] == r2[j]);
    }
    assert(strip_padding(r1) =~= strip_padding(r2));
}

/// Dumps whose payloads differ only in filler bytes give the same entries.
pub proof fn law_payload_ignores_filler(s1: Seq<char>, s2: Seq<char>)
    requires
        hex_decoding(clean_hex(s1)) is Some,
        hex_decoding(clean_hex(s2)) is Some,
        hex_decoding(clean_hex(s1))->0.len() == hex_decoding(clean_hex(s2))->0.len(),
        forall|i: int|
            0 <= i < hex_decoding(clean_hex(s1))->0.len() && (i + 1) % 3 != 0 ==> #[trigger] hex_decoding(
                clean_hex(s1),
            )->0[i] == hex_decoding(clean_hex(s2))->0[i],
    ensures
        msp_payload(s1) == msp_payload(s2),
{
    law_strip_padding_ignores_filler(
        hex_decoding(clean_hex(s1))->0,
        hex_decoding(clean_hex(s2))->0,
    );
}

/// The glyph that entry `(row, column, character)` draws.
pub open spec fn entry_glyph(e: (u8, u8, u16)) -> Glyph {
    Glyph { index: e.2, grid_position: GridPosition { x: e.1 as u32, y: e.0 as u32 } }
}

/// The entry lies on the 53-column, 20-row grid and draws something (its
/// character is neither 0 nor the space 0x20).
pub open spec fn entry_on_screen(e: (u8, u8, u16)) -> bool {
    e.1 < 53 && e.0 < 20 && e.2 != 0 && e.2 != 0x20
}

proof fn lemma_visible_glyphs_filter(entries: Seq<(u8, u8, u16)>)
    ensures
        forall|j: int|
            0 <= j < entries.len() && entry_on_screen(#[trigger] entries[j]) ==> visible_glyphs(
                entries,
            ).contains(entry_glyph(entries[j])),
        forall|i: int|
            #![trigger visible_glyphs(entries)[i]]
            0 <= i < visible_glyphs(entries).len() ==> exists|j: int|
                0 <= j < entries.len() && entry_on_screen(#[trigger] entries[j])
                    && visible_glyphs(entries)[i] == entry_glyph(entries[j]),
    decreases entries.len(),
{
    if entries.len() > 0 {
        let n = entries.len() - 1;
        let rest = entries.drop_last();
        lemma_visible_glyphs_filter(rest);
        let v = visible_glyphs(entries);
        let vr = visible_glyphs(rest);
        let e = entries[n];
        assert(entries.last() == e);
        if entry_on_screen(e) {
            assert(v == vr.push(entry_glyph(e)));
        } else {
            assert(v == vr);
        }
        assert forall|j: int|
            0 <= j < entries.len() && entry_on_screen(#[trigger] entries[j]) implies v.contains(
            entry_glyph(entries[j]),
        ) by {
            if j == n {
                assert(v[v.len() - 1] == entry_glyph(e));
            } else {
                assert(rest[j] == entries[j]);
                assert(vr.contains(entry_glyph(rest[j])));
                let q = choose|q: int| 0 <= q < vr.len() && vr[q] == entry_glyph(rest[j]);
                assert(v[q] == vr[q]);
            }
        }
        assert forall|i: int| #![trigger v[i]] 0 <= i < v.len() implies exists|j: int|
            0 <= j < entries.len() && entry_on_screen(#[trigger] entries[j]) && v[i]
                == entry_glyph(entries[j]) by {
            if i < vr.len() {
                assert(v[i] == vr[i]);
                let j = choose|j: int|
                    0 <= j < rest.len() && entry_on_screen(#[trigger] rest[j]) && vr[i]
                        == entry_glyph(rest[j]);
                assert(rest[j] == entries[j]);
            } else {
                assert(v[i] == entry_glyph(entries[n]));
            }
        }
    }
}

/// What a frame built from an SEI payload shows: every entry of the payload
/// that lies on the 53-column, 20-row grid and draws something is one of
/// the frame's glyphs (so a payload with such an entry always makes a
/// frame), and every glyph of the frame is such an entry.
pub proof fn law_sei_frame_shows_on_screen_entries(text: Seq<char>)
    ensures
        msp_payload(text) matches Some(e) ==> ((exists|j: int|
            0 <= j < e.len() && entry_on_screen(#[trigger] e[j])) <==> sei_frame_glyphs(text) is Some),
        msp_payload(text) matches Some(e) ==> forall|j: int|
            0 <= j < e.len() && entry_on_screen(#[trigger] e[j]) ==> sei_frame_glyphs(
                text,
            )->0.contains(entry_glyph(e[j])),
        sei_frame_glyphs(text) matches Some(g) ==> g.len() > 0 && msp_payload(text) is Some
            && forall|i: int|
            #![trigger g[i]]
            0 <= i < g.len() ==> exists|j: int|
                0 <= j < msp_payload(text)->0.len() && entry_on_screen(
                    #[trigger] msp_payload(text)->0[j],
                ) && g[i] == entry_glyph(msp_payload(text)->0[j]),
        sei_frame_glyphs(text) matches Some(g) ==> forall|i: int|
            0 <= i < g.len() ==> (#[trigger] g[i]).grid_position.x < 53 && g[i].grid_position.y
                < 20 && g[i].index != 0 && g[i].index != 0x20,
{
    if let Some(e) = msp_payload(text) {
        lemma_visible_glyphs_filter(e);
        let v = visible_glyphs(e);
        if exists|j: int| 0 <= j < e.len() && entry_on_screen(#[trigger] e[j]) {
            let j = choose|j: int| 0 <= j < e.len() && entry_on_screen(#[trigger] e[j]);
            assert(v.contains(entry_glyph(e[j])));
        }
        if v.len() > 0 {
            assert(exists|j: int|
                0 <= j < e.len() && entry_on_screen(#[trigger] e[j]) && v[0] == entry_glyph(e[j]));
        }
        assert forall|i: int| 0 <= i < v.len() implies (#[trigger] v[i]).grid_position.x < 53
            && v[i].grid_position.y < 20 && v[i].index != 0 && v[i].index != 0x20 by {
            let j = choose|j: int|
                0 <= j < e.len() && entry_on_screen(#[trigger] e[j]) && v[i] == entry_glyph(e[j]);
        }
    }
}

/// Entry `e` is what the command starting at `s` writes for its glyph
/// byte at `s + 5 + j`: the command's row, its column moved `j` places
/// right (the move counted modulo 256 and the column saturating at 255),
/// and the character whose low byte is the glyph byte and whose font page
/// is the two low bits of the attribute byte.
pub open spec fn entry_written_by(data: Seq<u8>, s: int, j: int, e: (u8, u8, u16)) -> bool {
    &&& 0 <= j
    &&& 0 <= s
    &&& s + 5 + j < data.len()
    &&& data[s] == 0xb6 && data[s + 1] == 0x03
    &&& e.0 == data[s + 2]
    &&& e.1 == (if data[s + 3] + j % 256 > 255 {
        255
    } else {
        data[s + 3] + j % 256
    })
    &&& e.2 % 256 == data[s + 5 + j]
    &&& e.2 / 256 == data[s + 4] % 4
}

/// Entry `e` is written by some command of `data` (see `entry_written_by`).
pub open spec fn written_by_command(data: Seq<u8>, e: (u8, u8, u16)) -> bool {
    exists|s: int, j: int| entry_written_by(data, s, j, e)
}

proof fn lemma_entries_written(data: Seq<u8>, m: int)
    requires
        0 <= m <= command_offsets(data).len(),
    ensures
        forall|k: int|
            #![trigger glyphs_upto(data, command_offsets(data), m)[k]]
            0 <= k < glyphs_upto(data, command_offsets(data), m).len() ==> written_by_command(
                data,
                glyphs_upto(data, command_offsets(data), m)[k],
            ),
    decreases m,
{
    let offs = command_offsets(data);
    if m > 0 {
        lemma_entries_written(data, m - 1);
        lemma_command_offsets_are_commands(data, data.len() - 1);
        let a = glyphs_upto(data, offs, m - 1);
        let b = command_glyphs(data, offs, m - 1);
        let g = glyphs_upto(data, offs, m);
        assert(g == a + b);
        assert forall|k: int|
            #![trigger glyphs_upto(data, command_offsets(data), m)[k]]
            0 <= k < glyphs_upto(data, command_offsets(data), m).len() implies written_by_command(
                data,
                glyphs_upto(data, command_offsets(data), m)[k],
            ) by {
            if k < a.len() {
                assert(g[k] == a[k]);
            } else {
                let j = k - a.len();
                let s = offs[m - 1];
                assert(g[k] == b[j]);
                assert(is_command_at(data, s));
                let end = glyph_end(data, offs, m - 1);
                assert(end <= data.len()) by {
                    if m < offs.len() {
                        assert(offs[m] < data.len());
                    }
                }
                let code = character_code(data[s + 4], data[s + 5 + j]);
                assert(code % 256 == data[s + 5 + j] && code / 256 == data[s + 4] % 4) by {
                    let p = data[s + 4] % 4;
                    let q = data[s + 5 + j];
                    assert(code == p * 256 + q);
                }
                assert(entry_written_by(data, s, j, g[k]));
                assert(written_by_command(data, g[k]));
            }
        }
    } else {
        assert(glyphs_upto(data, offs, m).len() == 0);
    }
}

proof fn lemma_command_offsets_are_commands(data: Seq<u8>, n: int)
    ensures
        forall|i: int|
            0 <= i < command_offsets_below(data, n).len() ==> is_command_at(
                data,
                #[trigger] command_offsets_below(data, n)[i],
            ) && command_offsets_below(data, n)[i] < n,
    decreases n,
{
    if n > 0 {
        lemma_command_offsets_are_commands(data, n - 1);
        let p = command_offsets_below(data, n - 1);
        let q = command_offsets_below(data, n);
        assert forall|i: int| 0 <= i < q.len() implies is_command_at(data, #[trigger] q[i]) && q[i]
            < n by {
            if i < p.len() {
                assert(q[i] == p[i]);
            }
        }
    }
}

/// Every entry that a payload yields is written by an MSP DisplayPort
/// command (`b6 03 row col attribute` followed by glyph bytes) of the
/// de-padded payload: it carries the command's row, the command's column
/// moved right by the glyph's place, and the glyph byte on the font page
/// that the attribute's two low bits select.
pub proof fn law_payload_entries_written_by_commands(text: Seq<char>)
    ensures
        msp_payload(text) matches Some(v) ==> forall|k: int|
            #![trigger v[k]]
            0 <= k < v.len() ==> written_by_command(
                strip_padding(hex_decoding(clean_hex(text))->0),
                v[k],
            ),
{
    if let Some(raw) = hex_decoding(clean_hex(text)) {
        let data = strip_padding(raw);
        lemma_entries_written(data, command_offsets(data).len() as int);
        if let Some(v) = msp_payload(text) {
            assert(v == glyphs_upto(data, command_offsets(data), command_offsets(data).len() as int));
        }
    }
}

/// `f` is the frame that one of `entries` describes: its time and the
/// glyphs of its payload.
pub open spec fn frame_of_some_entry(entries: Seq<SeiEntry>, f: (u32, Seq<Glyph>)) -> bool {
    exists|j: int|
        0 <= j < entries.len() && sei_frame_glyphs((#[trigger] entries[j]).hex@) == Some(f.1)
            && entries[j].time_millis == f.0
}

proof fn lemma_sei_frames(entries: Seq<SeiEntry>)
    ensures
        sei_frames(entries).len() <= entries.len(),
        forall|i: int|
            0 <= i < sei_frames(entries).len() ==> frame_of_some_entry(
                entries,
                #[trigger] sei_frames(entries)[i],
            ),
        forall|j: int|
            0 <= j < entries.len() && (#[trigger] sei_frame_glyphs(entries[j].hex@)) is Some
                ==> sei_frames(entries).contains(
                (entries[j].time_millis, sei_frame_glyphs(entries[j].hex@)->0),
            ),
    decreases entries.len(),
{
    if entries.len() > 0 {
        let n = entries.len() - 1;
        let rest = entries.drop_last();
        lemma_sei_frames(rest);
        let fr = sei_frames(rest);
        let f = sei_frames(entries);
        let e = entries[n];
        assert(entries.last() == e);
        assert forall|i: int| 0 <= i < f.len() implies frame_of_some_entry(
            entries,
            #[trigger] f[i],
        ) by {
            if i < fr.len() {
                assert(f[i] == fr[i]);
                assert(frame_of_some_entry(rest, fr[i]));
                let j = choose|j: int|
                    0 <= j < rest.len() && sei_frame_glyphs((#[trigger] rest[j]).hex@) == Some(
                        fr[i].1,
                    ) && rest[j].time_millis == fr[i].0;
                assert(rest[j] == entries[j]);
            } else {
                assert(sei_frame_glyphs(entries[n].hex@) == Some(f[i].1));
            }
        }
        assert forall|j: int|
            0 <= j < entries.len() && (#[trigger] sei_frame_glyphs(entries[j].hex@)) is Some
                implies f.contains((entries[j].time_millis, sei_frame_glyphs(entries[j].hex@)->0)) by {
            if j == n {
                assert(f[f.len() - 1] == (e.time_millis, sei_frame_glyphs(e.hex@)->0));
            } else {
                assert(rest[j] == entries[j]);
                assert(sei_frame_glyphs(rest[j].hex@) is Some);
                let x = (entries[j].time_millis, sei_frame_glyphs(entries[j].hex@)->0);
                assert(fr.contains(x));
                let q = choose|q: int| 0 <= q < fr.len() && fr[q] == x;
                assert(f[q] == fr[q]);
            }
        }
    }
}

/// The frames built from SEI entries: every entry whose payload describes a
/// frame gives a frame with that entry's time and glyphs, every frame comes
/// from such an entry, there are no more frames than entries, and there are
/// none exactly when no entry describes a frame.
pub proof fn law_sei_frames(entries: Seq<SeiEntry>)
    ensures
        sei_frames(entries).len() <= entries.len(),
        forall|i: int|
            0 <= i < sei_frames(entries).len() ==> frame_of_some_entry(
                entries,
                #[trigger] sei_frames(entries)[i],
            ),
        forall|j: int|
            0 <= j < entries.len() && (#[trigger] sei_frame_glyphs(entries[j].hex@)) is Some
                ==> sei_frames(entries).contains(
                (entries[j].time_millis, sei_frame_glyphs(entries[j].hex@)->0),
            ),
        sei_frames(entries).len() == 0 <==> forall|j: int|
            0 <= j < entries.len() ==> (#[trigger] sei_frame_glyphs(entries[j].hex@)) is None,
{
    lemma_sei_frames(entries);
    if sei_frames(entries).len() > 0 {
        let f0 = sei_frames(entries)[0];
        assert(frame_of_some_entry(entries, f0));
    }
    if exists|j: int| 0 <= j < entries.len() && (#[trigger] sei_frame_glyphs(entries[j].hex@)) is Some {
        let j = choose|j: int|
            0 <= j < entries.len() && (#[trigger] sei_frame_glyphs(entries[j].hex@)) is Some;
        assert(sei_frames(entries).contains(
            (entries[j].time_millis, sei_frame_glyphs(entries[j].hex@)->0),
        ));
    }
}

/// The extraction protocol: it first asks whether an OSD file sits next to
/// the video and uses it when one does; otherwise it scans the first 2
/// seconds, stops with no OSD when they hold no SEI entry, and otherwise
/// scans the whole video; that scan ends the extraction with the frames of
/// its entries (as many as there are entries describing a frame, the count
/// saturating at `u32::MAX`), or with no OSD when there are none.
pub proof fn law_extraction_protocol(
    state: ExtractState,
    event: ExtractEvent,
    next: ExtractState,
    action: ExtractAction,
)
    requires
        accepts(state, event),
        extract_step(state, event, next, action),
    ensures
        state == ExtractState::Start ==> next == ExtractState::AwaitExisting
            && action is CheckExistingOsdFile,
        event == ExtractEvent::ExistingOsdFile(true) ==> next == ExtractState::Done
            && action is OpenExistingOsdFile,
        event == ExtractEvent::ExistingOsdFile(false) ==> next == ExtractState::AwaitQuickScan
            && action == (ExtractAction::ScanSei { limit_seconds: Some(2) }),
        state == ExtractState::AwaitQuickScan ==> (event->SeiEntries_0@.len() == 0 ==> next
            == ExtractState::Done && action is NoOsd) && (event->SeiEntries_0@.len() > 0 ==> next
            == ExtractState::AwaitFullScan && action == (ExtractAction::ScanSei {
            limit_seconds: None,
        })),
        state == ExtractState::AwaitFullScan ==> next == ExtractState::Done && ((action is NoOsd)
            <==> forall|j: int|
            0 <= j < event->SeiEntries_0@.len() ==> (#[trigger] sei_frame_glyphs(
                event->SeiEntries_0@[j].hex@,
            )) is None),
        state == ExtractState::AwaitFullScan && action is Extracted ==> ({
            let osd = action->Extracted_0;
            let e = event->SeiEntries_0@;
            &&& osd.frames@.len() == sei_frames(e).len()
            &&& osd.frame_count == (if osd.frames@.len() > 4294967295 {
                4294967295
            } else {
                osd.frames@.len()
            })
            &&& forall|i: int|
                0 <= i < osd.frames@.len() ==> frame_of_some_entry(
                    e,
                    #[trigger] frame_model(osd.frames@[i]),
                )
        }),
{
    if state == ExtractState::AwaitFullScan {
        let e = event->SeiEntries_0@;
        law_sei_frames(e);
        if let ExtractAction::Extracted(osd) = action {
            assert(frames_model(osd.frames@) == sei_frames(e));
            assert(osd.frames@.len() == frames_model(osd.frames@).len());
            assert forall|i: int| 0 <= i < osd.frames@.len() implies frame_of_some_entry(
                e,
                #[trigger] frame_model(osd.frames@[i]),
            ) by {
                assert(frames_model(osd.frames@)[i] == frame_model(osd.frames@[i]));
                assert(frame_of_some_entry(e, sei_frames(e)[i]));
            }
        }
    }
}

/// Position of a state in the order the extraction passes through them.
pub open spec fn extract_rank(state: ExtractState) -> int {
    match state {
        ExtractState::Start => 0,
        ExtractState::AwaitExisting => 1,
        ExtractState::AwaitQuickScan => 2,
        ExtractState::AwaitFullScan => 3,
        ExtractState::Done => 4,
    }
}

/// Every step of the extraction moves strictly forward through the states,
/// so it ends (in `Done`) after at most four steps, and it ends exactly
/// when the action is to open the existing file, to use the extracted OSD,
/// or that there is none.
pub proof fn law_extraction_progresses(
    state: ExtractState,
    event: ExtractEvent,
    next: ExtractState,
    action: ExtractAction,
)
    requires
        accepts(state, event),
        extract_step(state, event, next, action),
    ensures
        extract_rank(next) > extract_rank(state),
        next == ExtractState::Done <==> (action is OpenExistingOsdFile || action is Extracted
            || action is NoOsd),
{
}

/// The commands found by walking a de-padded payload as length-prefixed
/// records from `curr`: each record is a length byte `n` followed by `n`
/// bytes; the walk stops at a zero length or a record that would run past
/// the end. Each record gives `(offset, length, starts with b6 03)`.
pub open spec fn length_prefixed_walk(data: Seq<u8>, curr: int) -> Seq<(usize, usize, bool)>
    decreases data.len() - curr,
{
    if curr < 0 || curr >= data.len() {
        Seq::empty()
    } else {
        let n = data[curr] as int;
        if n == 0 || curr + n + 1 > data.len() {
            Seq::empty()
        } else {
            seq![(curr as usize, n as usize, data[curr + 1] == 0xb6 && data[curr + 2] == 0x03)]
                + length_prefixed_walk(data, curr + n + 1)
        }
    }
}

/// The walk from `curr` never reads past the end: a one-byte record whose
/// byte is `b6` is not the last byte of the data.
pub open spec fn walk_in_bounds(data: Seq<u8>, curr: int) -> bool
    decreases data.len() - curr,
{
    if curr < 0 || curr >= data.len() {
        true
    } else {
        let n = data[curr] as int;
        if n == 0 || curr + n + 1 > data.len() {
            true
        } else {
            (data[curr + 1] == 0xb6 ==> curr + 2 < data.len()) && walk_in_bounds(data, curr + n + 1)
        }
    }
}

/// Whether walking `data` from `start` stays in bounds (see
/// `walk_in_bounds`).
pub fn walk_stays_in_bounds(data: &[u8], start: usize) -> (r: bool)
    ensures
        r == walk_in_bounds(data@, start as int),
{
    let len = data.len();
    let mut curr = start;
    while curr < len
        invariant
            len == data@.len(),
            walk_in_bounds(data@, start as int) == walk_in_bounds(data@, curr as int),
        decreases len - curr,
    {
        let n = data[curr] as usize;
        if n == 0 || n + 1 > len - curr {
            return true;
        }
        if data[curr + 1] == 0xb6 && curr + 2 >= len {
            return false;
        }
        curr = curr + n + 1;
    }
    true
}

/// Walks `data` as length-prefixed records from `start` (see
/// `length_prefixed_walk`).
pub fn walk_length_prefixed(data: &[u8], start: usize) -> (records: Vec<(usize, usize, bool)>)
    requires
        walk_in_bounds(data@, start as int),
    ensures
        records@ == length_prefixed_walk(data@, start as int),
{
    let len = data.len();
    let mut records: Vec<(usize, usize, bool)> = Vec::new();
    let mut curr = start;
    while curr < len
        invariant
            len == data@.len(),
            walk_in_bounds(data@, curr as int),
            length_prefixed_walk(data@, start as int) == records@ + length_prefixed_walk(
                data@,
                curr as int,
            ),
        decreases len - curr,
    {
        let n = data[curr] as usize;
        if n == 0 || n + 1 > len - curr {
            assert(length_prefixed_walk(data@, curr as int) =~= Seq::<(usize, usize, bool)>::empty());
            assert(records@ + Seq::<(usize, usize, bool)>::empty() =~= records@);
            return records;
        }
        let is_command = data[curr + 1] == 0xb6 && data[curr + 2] == 0x03;
        let ghost before = records@;
        records.push((curr, n, is_command));
        assert(before + length_prefixed_walk(data@, curr as int) =~= records@
            + length_prefixed_walk(data@, curr + n + 1));
        curr = curr + n + 1;
    }
    assert(length_prefixed_walk(data@, curr as int) =~= Seq::<(usize, usize, bool)>::empty());
    assert(records@ + Seq::<(usize, usize, bool)>::empty() =~= records@);
    records
}

} // verus!
