//! Recovering files from a raw flash image: finding known file signatures
//! in a block of bytes, and reading the PNG offsets that a scan logged.
use vstd::prelude::*;

use crate::template::find_sub;
use crate::text::{char_is_whitespace, chars_of, is_whitespace, IntErrorKind};

verus! {

/// The names of the signatures looked for, in order.
pub open spec fn signature_names() -> Seq<Seq<char>> {
    seq![
        "OKLI"@,
        "PNG"@,
        "SquashFS"@,
        "SquashFS-be"@,
        "EXT4"@,
        "U-Boot"@,
        "GZIP"@,
        "LZMA"@,
    ]
}

/// The bytes of the signatures looked for, in order: `OKLI`, the PNG
/// magic, SquashFS (`hsqs`, and `sqsh` big-endian), the ext4 superblock
/// magic, the U-Boot image magic, the gzip magic and the LZMA header.
pub open spec fn signature_bytes() -> Seq<Seq<u8>> {
    seq![
        seq![0x4f, 0x4b, 0x4c, 0x49],
        seq![0x89, 0x50, 0x4e, 0x47, 0x0d, 0x0a, 0x1a, 0x0a],
        seq![0x68, 0x73, 0x71, 0x73],
        seq![0x73, 0x71, 0x73, 0x68],
        seq![0x53, 0xef],
        seq![0x27, 0x05, 0x19, 0x56],
        seq![0x1f, 0x8b],
        seq![0x5d, 0x00, 0x00],
    ]
}

/// Signature `k` starts at `i` within the first `n` bytes of `buf`.
pub open spec fn signature_at(buf: Seq<u8>, n: int, i: int, k: int) -> bool {
    let sig = signature_bytes()[k];
    0 <= i && i + sig.len() <= n && n <= buf.len() && buf.subrange(i, i + sig.len()) == sig
}

/// The hits `(signature, position)` among the first `m` signatures at
/// position `i`, in signature order.
pub open spec fn hits_at(buf: Seq<u8>, n: int, i: int, m: int) -> Seq<(usize, usize)>
    decreases m,
{
    if m <= 0 {
        Seq::empty()
    } else if signature_at(buf, n, i, m - 1) {
        hits_at(buf, n, i, m - 1).push(((m - 1) as usize, i as usize))
    } else {
        hits_at(buf, n, i, m - 1)
    }
}

/// All hits at positions below `i`, by position, then signature order.
pub open spec fn hits_below(buf: Seq<u8>, n: int, i: int) -> Seq<(usize, usize)>
    decreases i,
{
    if i <= 0 {
        Seq::empty()
    } else {
        hits_below(buf, n, i - 1) + hits_at(buf, n, i - 1, signature_bytes().len() as int)
    }
}

fn signature(k: usize) -> (sig: &'static [u8])
    requires
        k < 8,
    ensures
        sig@ == signature_bytes()[k as int],
{
    let s: &'static [u8] = if k == 0 {
        &[0x4f, 0x4b, 0x4c, 0x49]
    } else if k == 1 {
        &[0x89, 0x50, 0x4e, 0x47, 0x0d, 0x0a, 0x1a, 0x0a]
    } else if k == 2 {
        &[0x68, 0x73, 0x71, 0x73]
    } else if k == 3 {
        &[0x73, 0x71, 0x73, 0x68]
    } else if k == 4 {
        &[0x53, 0xef]
    } else if k == 5 {
        &[0x27, 0x05, 0x19, 0x56]
    } else if k == 6 {
        &[0x1f, 0x8b]
    } else {
        &[0x5d, 0x00, 0x00]
    };
    assert(s@ =~= signature_bytes()[k as int]);
    s
}

/// The name of signature `k` (see `signature_names`).
pub fn signature_name(k: usize) -> (name: &'static str)
    requires
        k < 8,
    ensures
        name@ == signature_names()[k as int],
{
    if k == 0 {
        "OKLI"
    } else if k == 1 {
        "PNG"
    } else if k == 2 {
        "SquashFS"
    } else if k == 3 {
        "SquashFS-be"
    } else if k == 4 {
        "EXT4"
    } else if k == 5 {
        "U-Boot"
    } else if k == 6 {
        "GZIP"
    } else {
        "LZMA"
    }
}

fn matches_at(buf: &[u8], n: usize, i: usize, sig: &[u8]) -> (r: bool)
    requires
        n <= buf@.len(),
        i <= n,
    ensures
        r == (i + sig@.len() <= n && buf@.subrange(i as int, i + sig@.len()) == sig@),
{
    if n - i < sig.len() {
        return false;
    }
    let mut k: usize = 0;
    while k < sig.len()
        invariant
            n <= buf@.len(),
            i + sig@.len() <= n,
            k <= sig@.len(),
            forall|j: int| 0 <= j < k ==> buf@[i + j] == sig@[j],
        decreases sig@.len() - k,
    {
        if buf[i + k] != sig[k] {
            assert(buf@.subrange(i as int, i + sig@.len())[k as int] != sig@[k as int]);
            return false;
        }
        k = k + 1;
    }
    assert(buf@.subrange(i as int, i + sig@.len()) =~= sig@);
    true
}

/// Every signature that starts in the first `n` bytes of `buf` and fits
/// within them, as `(signature index, position)`, by position and then in
/// the order of `signature_bytes`.
pub fn find_signatures(buf: &[u8], n: usize) -> (hits: Vec<(usize, usize)>)
    requires
        n <= buf@.len(),
    ensures
        hits@ == hits_below(buf@, n as int, n as int),
{
    let mut hits: Vec<(usize, usize)> = Vec::new();
    let mut i: usize = 0;
    while i < n
        invariant
            n <= buf@.len(),
            i <= n,
            hits@ == hits_below(buf@, n as int, i as int),
        decreases n - i,
    {
        let ghost before = hits@;
        let mut k: usize = 0;
        while k < 8
            invariant
                n <= buf@.len(),
                i < n,
                k <= 8,
                hits@ == before + hits_at(buf@, n as int, i as int, k as int),
            decreases 8 - k,
        {
            let sig = signature(k);
            if matches_at(buf, n, i, sig) {
                hits.push((k, i));
                assert(hits@ =~= before + hits_at(buf@, n as int, i as int, k + 1));
            } else {
                assert(hits_at(buf@, n as int, i as int, k + 1) == hits_at(
                    buf@,
                    n as int,
                    i as int,
                    k as int,
                ));
            }
            k = k + 1;
        }
        i = i + 1;
    }
    hits
}

proof fn lemma_hits_at(buf: Seq<u8>, n: int, i: int, m: int)
    requires
        0 <= i <= usize::MAX,
        0 <= m <= 8,
    ensures
        forall|k: usize, p: usize|
            #[trigger] hits_at(buf, n, i, m).contains((k, p)) <==> (p == i && k < m
                && signature_at(buf, n, i, k as int)),
    decreases m,
{
    let h = hits_at(buf, n, i, m);
    if m == 0 {
        assert(h =~= Seq::<(usize, usize)>::empty());
    } else {
        lemma_hits_at(buf, n, i, m - 1);
        let g = hits_at(buf, n, i, m - 1);
        let x = ((m - 1) as usize, i as usize);
        assert forall|k: usize, p: usize| #[trigger] h.contains((k, p)) <==> (p == i && k < m
            && signature_at(buf, n, i, k as int)) by {
            if signature_at(buf, n, i, m - 1) {
                assert(h == g.push(x));
                if h.contains((k, p)) {
                    let q = choose|q: int| 0 <= q < h.len() && h[q] == (k, p);
                    if q < g.len() {
                        assert(g[q] == h[q]);
                        assert(g.contains((k, p)));
                    }
                }
                if p == i && k < m && signature_at(buf, n, i, k as int) {
                    if k < m - 1 {
                        assert(g.contains((k, p)));
                        let q = choose|q: int| 0 <= q < g.len() && g[q] == (k, p);
                        assert(h[q] == g[q]);
                    } else {
                        assert(h[g.len() as int] == x);
                    }
                }
            } else {
                assert(h == g);
            }
        }
    }
}

proof fn lemma_hits_below(buf: Seq<u8>, n: int, m: int)
    requires
        0 <= m <= usize::MAX,
    ensures
        forall|k: usize, p: usize|
            #[trigger] hits_below(buf, n, m).contains((k, p)) <==> (p < m && k < 8
                && signature_at(buf, n, p as int, k as int)),
    decreases m,
{
    let h = hits_below(buf, n, m);
    if m == 0 {
        assert(h =~= Seq::<(usize, usize)>::empty());
    } else {
        lemma_hits_below(buf, n, m - 1);
        let a = hits_below(buf, n, m - 1);
        assert(signature_bytes().len() == 8);
        let b = hits_at(buf, n, m - 1, 8);
        lemma_hits_at(buf, n, m - 1, 8);
        assert(h == a + b);
        assert forall|k: usize, p: usize| #[trigger] h.contains((k, p)) <==> (p < m && k < 8
            && signature_at(buf, n, p as int, k as int)) by {
            if h.contains((k, p)) {
                let q = choose|q: int| 0 <= q < h.len() && h[q] == (k, p);
                if q < a.len() {
                    assert(a[q] == h[q]);
                    assert(a.contains((k, p)));
                } else {
                    assert(b[q - a.len()] == h[q]);
                    assert(b.contains((k, p)));
                }
            }
            if p < m && k < 8 && signature_at(buf, n, p as int, k as int) {
                if p < m - 1 {
                    assert(a.contains((k, p)));
                    let q = choose|q: int| 0 <= q < a.len() && a[q] == (k, p);
                    assert(h[q] == a[q]);
                } else {
                    assert(b.contains((k, p)));
                    let q = choose|q: int| 0 <= q < b.len() && b[q] == (k, p);
                    assert(h[a.len() + q] == b[q]);
                }
            }
        }
    }
}

/// A scan of the first `n` bytes finds each known magic number exactly
/// where it lies wholly within them: `OKLI` (0), the PNG magic
/// `89 50 4e 47 0d 0a 1a 0a` (1), SquashFS `hsqs` (2) and `sqsh` (3), the
/// ext4 magic `53 ef` (4), the U-Boot image magic `27 05 19 56` (5), the
/// gzip magic `1f 8b` (6) and the LZMA header `5d 00 00` (7); it reports
/// nothing else.
pub proof fn law_signature_magic(buf: Seq<u8>, n: usize, i: usize)
    requires
        n <= buf.len(),
    ensures
        ({
            let hits = hits_below(buf, n as int, n as int);
            &&& hits.contains((0usize, i)) <==> (i + 4 <= n && buf.subrange(i as int, i + 4) == seq![
                0x4fu8,
                0x4b,
                0x4c,
                0x49,
            ])
            &&& hits.contains((1usize, i)) <==> (i + 8 <= n && buf.subrange(i as int, i + 8) == seq![
                0x89u8,
                0x50,
                0x4e,
                0x47,
                0x0d,
                0x0a,
                0x1a,
                0x0a,
            ])
            &&& hits.contains((2usize, i)) <==> (i + 4 <= n && buf.subrange(i as int, i + 4) == seq![
                0x68u8,
                0x73,
                0x71,
                0x73,
            ])
            &&& hits.contains((3usize, i)) <==> (i + 4 <= n && buf.subrange(i as int, i + 4) == seq![
                0x73u8,
                0x71,
                0x73,
                0x68,
            ])
            &&& hits.contains((4usize, i)) <==> (i + 2 <= n && buf.subrange(i as int, i + 2) == seq![
                0x53u8,
                0xef,
            ])
            &&& hits.contains((5usize, i)) <==> (i + 4 <= n && buf.subrange(i as int, i + 4) == seq![
                0x27u8,
                0x05,
                0x19,
                0x56,
            ])
            &&& hits.contains((6usize, i)) <==> (i + 2 <= n && buf.subrange(i as int, i + 2) == seq![
                0x1fu8,
                0x8b,
            ])
            &&& hits.contains((7usize, i)) <==> (i + 3 <= n && buf.subrange(i as int, i + 3) == seq![
                0x5du8,
                0x00,
                0x00,
            ])
            &&& forall|k: usize, p: usize| #[trigger] hits.contains((k, p)) ==> k < 8 && p < n
        }),
{
    lemma_hits_below(buf, n as int, n as int);
}

/// Unicode alphanumeric (`char::is_alphanumeric`): alphabetic or numeric.
pub uninterp spec fn unicode_alphanumeric(c: char) -> bool;

/// `char::is_alphanumeric`. The result is `unicode_alphanumeric(c)`, the
/// Unicode `Alphabetic` and `Numeric` properties, which are not written
/// out here beyond the ASCII letters and digits the documentation names.
#[verifier::external_body]
fn char_is_alphanumeric(c: char) -> (r: bool)
    ensures
        r == unicode_alphanumeric(c),
        ('0' <= c && c <= '9') || ('a' <= c && c <= 'z') || ('A' <= c && c <= 'Z') ==> r,
{
    c.is_alphanumeric()
}

/// The first whitespace-separated word of `s` (`split_whitespace().next()`),
/// empty when there is none.
pub open spec fn first_word(s: Seq<char>) -> Seq<char> {
    let start = first_non_ws(s, 0);
    s.subrange(start, first_ws(s, start))
}

/// Index of the first non-whitespace character at or after `i`, or the end.
pub open spec fn first_non_ws(s: Seq<char>, i: int) -> int
    decreases s.len() - i,
{
    if i < 0 || i >= s.len() {
        if i < 0 {
            0
        } else {
            s.len() as int
        }
    } else if is_whitespace(s[i]) {
        first_non_ws(s, i + 1)
    } else {
        i
    }
}

/// Index of the first whitespace character at or after `i`, or the end.
pub open spec fn first_ws(s: Seq<char>, i: int) -> int
    decreases s.len() - i,
{
    if i < 0 || i >= s.len() {
        if i < 0 {
            0
        } else {
            s.len() as int
        }
    } else if is_whitespace(s[i]) {
        i
    } else {
        first_ws(s, i + 1)
    }
}

/// `s` without its leading and trailing non-alphanumeric characters
/// (`trim_matches(|c| !c.is_alphanumeric())`).
pub open spec fn trim_non_alnum(s: Seq<char>) -> Seq<char> {
    let a = first_alnum(s, 0);
    let b = last_alnum_end(s, s.len() as int);
    if a < b {
        s.subrange(a, b)
    } else {
        Seq::empty()
    }
}

/// Index of the first alphanumeric character at or after `i`, or the end.
pub open spec fn first_alnum(s: Seq<char>, i: int) -> int
    decreases s.len() - i,
{
    if i < 0 || i >= s.len() {
        s.len() as int
    } else if unicode_alphanumeric(s[i]) {
        i
    } else {
        first_alnum(s, i + 1)
    }
}

/// One past the last alphanumeric character before `j`, or 0.
pub open spec fn last_alnum_end(s: Seq<char>, j: int) -> int
    decreases j,
{
    if j <= 0 || j > s.len() {
        0
    } else if unicode_alphanumeric(s[j - 1]) {
        j
    } else {
        last_alnum_end(s, j - 1)
    }
}

/// Value of a hexadecimal digit character.
pub open spec fn hex_digit_value(c: char) -> nat {
    if '0' <= c && c <= '9' {
        (c as nat - '0' as nat) as nat
    } else if 'a' <= c && c <= 'f' {
        (c as nat - 'a' as nat + 10) as nat
    } else {
        (c as nat - 'A' as nat + 10) as nat
    }
}

/// Hexadecimal digit character.
pub open spec fn is_hex_char(c: char) -> bool {
    ('0' <= c && c <= '9') || ('a' <= c && c <= 'f') || ('A' <= c && c <= 'F')
}

/// The hexadecimal digits of `d` read onto `acc` as `u64::from_str_radix`
/// does: each character must be a digit, checked before the running value
/// exceeds `u64::MAX`.
pub open spec fn scan_hex(d: Seq<char>, acc: nat) -> Result<nat, IntErrorKind>
    decreases d.len(),
{
    if d.len() == 0 {
        Ok(acc)
    } else if !is_hex_char(d[0]) {
        Err(IntErrorKind::InvalidDigit)
    } else {
        let v = acc * 16 + hex_digit_value(d[0]);
        if v > u64::MAX {
            Err(IntErrorKind::PosOverflow)
        } else {
            scan_hex(d.drop_first(), v as nat)
        }
    }
}

/// `u64::from_str_radix(s, 16)`: an optional `+`, then hexadecimal digits.
pub open spec fn parse_hex_u64(s: Seq<char>) -> Result<nat, IntErrorKind> {
    if s.len() == 0 {
        Err(IntErrorKind::Empty)
    } else if s[0] == '+' {
        if s.len() == 1 {
            Err(IntErrorKind::InvalidDigit)
        } else {
            scan_hex(s.drop_first(), 0)
        }
    } else {
        scan_hex(s, 0)
    }
}

/// The offset of a PNG that a scan log line reports: a line that contains
/// `Found PNG` and then `0x` gives the first word after the first `0x`,
/// trimmed of non-alphanumeric characters and read as hexadecimal; any
/// other line gives nothing.
pub open spec fn png_offset(line: Seq<char>) -> Option<u64> {
    if find_sub(line, "Found PNG"@, 0) is None {
        None
    } else {
        match find_sub(line, "0x"@, 0) {
            None => None,
            Some(p) => match parse_hex_u64(trim_non_alnum(first_word(line.skip(p + 2)))) {
                Ok(v) => Some(v as u64),
                Err(_) => None,
            },
        }
    }
}

fn find_text(v: &Vec<char>, lit: &str) -> (r: Option<usize>)
    ensures
        match r {
            Some(q) => find_sub(v@, lit@, 0) == Some(q as int),
            None => find_sub(v@, lit@, 0) is None,
        },
{
    let l = chars_of(lit);
    crate::template::find_sub_at(v, &l, 0)
}

fn parse_hex_chars(v: &Vec<char>, a: usize, b: usize) -> (r: Result<u64, IntErrorKind>)
    requires
        a <= b <= v@.len(),
    ensures
        match r {
            Ok(x) => parse_hex_u64(v@.subrange(a as int, b as int)) == Ok::<nat, IntErrorKind>(x as nat),
            Err(k) => parse_hex_u64(v@.subrange(a as int, b as int)) == Err::<nat, IntErrorKind>(k),
        },
{
    let ghost s = v@.subrange(a as int, b as int);
    if a == b {
        return Err(IntErrorKind::Empty);
    }
    let mut i = a;
    if v[a] == '+' {
        if b - a == 1 {
            return Err(IntErrorKind::InvalidDigit);
        }
        i = a + 1;
        assert(s.drop_first() =~= v@.subrange(i as int, b as int));
    } else {
        assert(s =~= v@.subrange(i as int, b as int));
    }
    let mut acc: u64 = 0;
    while i < b
        invariant
            a <= i <= b <= v@.len(),
            s == v@.subrange(a as int, b as int),
            parse_hex_u64(s) == scan_hex(v@.subrange(i as int, b as int), acc as nat),
        decreases b - i,
    {
        let c = v[i];
        assert(v@.subrange(i as int, b as int).drop_first() =~= v@.subrange(i + 1, b as int));
        let d: u64 = if '0' <= c && c <= '9' {
            (c as u32 - '0' as u32) as u64
        } else if 'a' <= c && c <= 'f' {
            (c as u32 - 'a' as u32 + 10) as u64
        } else if 'A' <= c && c <= 'F' {
            (c as u32 - 'A' as u32 + 10) as u64
        } else {
            return Err(IntErrorKind::InvalidDigit);
        };
        if acc > (u64::MAX - d) / 16 {
            assert(acc * 16 + d > u64::MAX) by (nonlinear_arith)
                requires acc > (u64::MAX - d) / 16, d <= 15;
            return Err(IntErrorKind::PosOverflow);
        }
        assert(acc * 16 + d <= u64::MAX) by (nonlinear_arith)
            requires acc <= (u64::MAX - d) / 16, d <= 15;
        acc = acc * 16 + d;
        i = i + 1;
    }
    Ok(acc)
}

/// Reads the PNG offset that a scan log line reports (see `png_offset`).
pub fn png_offset_in_line(line: &str) -> (r: Option<u64>)
    ensures
        r == png_offset(line@),
{
    let v = chars_of(line);
    if find_text(&v, "Found PNG").is_none() {
        return None;
    }
    let p = match find_text(&v, "0x") {
        Some(p) => p,
        None => {
            return None;
        },
    };
    proof {
        crate::template::lemma_find_sub_found(v@, "0x"@, 0);
        reveal_strlit("0x");
    }
    let n = v.len();
    let ghost rest = v@.skip(p + 2);
    // first word of the rest
    let mut s = p + 2;
    while s < n && char_is_whitespace(v[s])
        invariant
            p + 2 <= s <= n,
            n == v@.len(),
            rest == v@.skip(p + 2),
            first_non_ws(rest, 0) == first_non_ws(rest, s - (p + 2)),
        decreases n - s,
    {
        assert(rest[s - (p + 2)] == v@[s as int]);
        s = s + 1;
    }
    let mut e = s;
    while e < n && !char_is_whitespace(v[e])
        invariant
            s <= e <= n,
            n == v@.len(),
            rest == v@.skip(p + 2),
            p + 2 <= s,
            first_ws(rest, s - (p + 2)) == first_ws(rest, e - (p + 2)),
        decreases n - e,
    {
        assert(rest[e - (p + 2)] == v@[e as int]);
        e = e + 1;
    }
    assert(first_word(rest) =~= v@.subrange(s as int, e as int));
    // trim non-alphanumerics
    let ghost w = v@.subrange(s as int, e as int);
    let mut a = s;
    while a < e && !char_is_alphanumeric(v[a])
        invariant
            s <= a <= e <= n,
            n == v@.len(),
            w == v@.subrange(s as int, e as int),
            first_alnum(w, 0) == first_alnum(w, a - s),
        decreases e - a,
    {
        assert(w[a - s] == v@[a as int]);
        a = a + 1;
    }
    let mut b = e;
    while b > a && !char_is_alphanumeric(v[b - 1])
        invariant
            a <= b <= e <= n,
            s <= a,
            n == v@.len(),
            w == v@.subrange(s as int, e as int),
            last_alnum_end(w, w.len() as int) == last_alnum_end(w, b - s),
        decreases b - a,
    {
        assert(w[b - 1 - s] == v@[b - 1]);
        b = b - 1;
    }
    proof {
        lemma_trim_bounds(w, a - s, b - s);
    }
    assert(trim_non_alnum(w) =~= v@.subrange(a as int, b as int));
    match parse_hex_chars(&v, a, b) {
        Ok(x) => Some(x),
        Err(_) => None,
    }
}

proof fn lemma_trim_bounds(w: Seq<char>, a: int, b: int)
    requires
        0 <= a <= b <= w.len(),
        first_alnum(w, 0) == first_alnum(w, a),
        last_alnum_end(w, w.len() as int) == last_alnum_end(w, b),
        a == w.len() || unicode_alphanumeric(w[a]),
        b == a || unicode_alphanumeric(w[b - 1]),
    ensures
        trim_non_alnum(w) == if a < b {
            w.subrange(a, b)
        } else {
            Seq::<char>::empty()
        },
{
    if a < w.len() {
        assert(first_alnum(w, a) == a);
    }
    if b > a {
        assert(last_alnum_end(w, b) == b);
    } else {
        lemma_last_alnum_end_le(w, b);
    }
}

proof fn lemma_last_alnum_end_le(w: Seq<char>, j: int)
    ensures
        last_alnum_end(w, j) <= if j < 0 { 0 } else { j },
    decreases j,
{
    if j > 0 && j <= w.len() && !unicode_alphanumeric(w[j - 1]) {
        lemma_last_alnum_end_le(w, j - 1);
    }
}

} // verus!
