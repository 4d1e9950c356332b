//! Character-level helpers for the textual formats the library reads:
//! whitespace, hexadecimal digits, trimming and searching.
use vstd::prelude::*;

verus! {

/// Unicode `White_Space`, the set that `char::is_whitespace` tests.
pub open spec fn is_whitespace(c: char) -> bool {
    let u = c as u32;
    (0x09 <= u && u <= 0x0d) || u == 0x20 || u == 0x85 || u == 0xa0 || u == 0x1680 || (0x2000
        <= u && u <= 0x200a) || u == 0x2028 || u == 0x2029 || u == 0x202f || u == 0x205f || u
        == 0x3000
}

/// ASCII hexadecimal digit: `0-9`, `a-f`, `A-F`.
pub open spec fn is_hex_digit(c: char) -> bool {
    ('0' <= c && c <= '9') || ('a' <= c && c <= 'f') || ('A' <= c && c <= 'F')
}

/// Same as `is_hex_digit`, on a byte.
pub open spec fn is_hex_byte(b: u8) -> bool {
    (48 <= b && b <= 57) || (97 <= b && b <= 102) || (65 <= b && b <= 70)
}

/// The value of a hexadecimal digit byte.
pub open spec fn hex_value(b: u8) -> u8 {
    if 48 <= b && b <= 57 {
        (b - 48) as u8
    } else if 97 <= b && b <= 102 {
        (b - 87) as u8
    } else {
        (b - 55) as u8
    }
}

/// The hexadecimal digits of `s`, in order.
pub open spec fn hex_digits(s: Seq<char>) -> Seq<char>
    decreases s.len(),
{
    if s.len() == 0 {
        Seq::empty()
    } else if is_hex_digit(s.last()) {
        hex_digits(s.drop_last()).push(s.last())
    } else {
        hex_digits(s.drop_last())
    }
}

/// The bytes of ASCII characters.
pub open spec fn ascii_bytes(s: Seq<char>) -> Seq<u8> {
    Seq::new(s.len(), |i: int| s[i] as u8)
}

/// `s` without its leading whitespace.
pub open spec fn trim_start(s: Seq<char>) -> Seq<char>
    decreases s.len(),
{
    if s.len() > 0 && is_whitespace(s[0]) {
        trim_start(s.drop_first())
    } else {
        s
    }
}

/// `s` without its trailing whitespace.
pub open spec fn trim_end(s: Seq<char>) -> Seq<char>
    decreases s.len(),
{
    if s.len() > 0 && is_whitespace(s.last()) {
        trim_end(s.drop_last())
    } else {
        s
    }
}

/// `s` without leading and trailing whitespace (`str::trim`).
pub open spec fn trim(s: Seq<char>) -> Seq<char> {
    trim_end(trim_start(s))
}

/// Index of the first occurrence of `c` in `s`.
pub open spec fn find_char(s: Seq<char>, c: char) -> Option<int>
    decreases s.len(),
{
    if s.len() == 0 {
        None
    } else if s[0] == c {
        Some(0)
    } else {
        match find_char(s.drop_first(), c) {
            Some(i) => Some(i + 1),
            None => None,
        }
    }
}

/// Index of the first occurrence of the two characters `a`, `b` in `s`.
pub open spec fn find_pair(s: Seq<char>, a: char, b: char) -> Option<int>
    decreases s.len(),
{
    if s.len() < 2 {
        None
    } else if s[0] == a && s[1] == b {
        Some(0)
    } else {
        match find_pair(s.drop_first(), a, b) {
            Some(i) => Some(i + 1),
            None => None,
        }
    }
}

/// `o` moved right by `d`.
pub open spec fn shift(o: Option<int>, d: int) -> Option<int> {
    match o {
        Some(i) => Some(i + d),
        None => None,
    }
}

/// Tests `is_whitespace`.
pub fn char_is_whitespace(c: char) -> (b: bool)
    ensures
        b == is_whitespace(c),
{
    let u = c as u32;
    (0x09 <= u && u <= 0x0d) || u == 0x20 || u == 0x85 || u == 0xa0 || u == 0x1680 || (0x2000
        <= u && u <= 0x200a) || u == 0x2028 || u == 0x2029 || u == 0x202f || u == 0x205f || u
        == 0x3000
}

/// Tests `is_hex_digit`.
pub fn char_is_hex_digit(c: char) -> (b: bool)
    ensures
        b == is_hex_digit(c),
{
    ('0' <= c && c <= '9') || ('a' <= c && c <= 'f') || ('A' <= c && c <= 'F')
}

/// The characters of `s`, in order.
pub fn chars_of(s: &str) -> (out: Vec<char>)
    ensures
        out@ == s@,
{
    let mut out: Vec<char> = Vec::new();
    for c in it: s.chars()
        invariant
            out@ == it.history(),
    {
        out.push(c);
    }
    out
}

/// `hex_digits` distributes over concatenation.
pub proof fn lemma_hex_digits_concat(a: Seq<char>, b: Seq<char>)
    ensures
        hex_digits(a + b) == hex_digits(a) + hex_digits(b),
    decreases b.len(),
{
    if b.len() == 0 {
        assert(a + b =~= a);
        assert(hex_digits(a) + hex_digits(b) =~= hex_digits(a));
    } else {
        lemma_hex_digits_concat(a, b.drop_last());
        assert((a + b).drop_last() =~= a + b.drop_last());
        assert((a + b).last() == b.last());
        if is_hex_digit(b.last()) {
            assert(hex_digits(a) + hex_digits(b) =~= (hex_digits(a) + hex_digits(
                b.drop_last(),
            )).push(b.last()));
        }
    }
}

/// Bounds `[lo, hi)` of `trim(v[start..end])` within `v`.
pub fn trim_bounds(v: &Vec<char>, start: usize, end: usize) -> (r: (usize, usize))
    requires
        start <= end <= v@.len(),
    ensures
        start <= r.0 <= r.1 <= end,
        v@.subrange(r.0 as int, r.1 as int) == trim(v@.subrange(start as int, end as int)),
{
    let mut a = start;
    while a < end && char_is_whitespace(v[a])
        invariant
            start <= a <= end <= v@.len(),
            trim_start(v@.subrange(start as int, end as int)) == trim_start(
                v@.subrange(a as int, end as int),
            ),
        decreases end - a,
    {
        assert(v@.subrange(a as int, end as int).drop_first() =~= v@.subrange(
            a + 1,
            end as int,
        ));
        a = a + 1;
    }
    let mut b = end;
    while b > a && char_is_whitespace(v[b - 1])
        invariant
            start <= a <= b <= end <= v@.len(),
            trim_end(v@.subrange(a as int, end as int)) == trim_end(
                v@.subrange(a as int, b as int),
            ),
        decreases b - a,
    {
        assert(v@.subrange(a as int, b as int).drop_last() =~= v@.subrange(
            a as int,
            b - 1,
        ));
        b = b - 1;
    }
    (a, b)
}

/// Position in `v` of the first `c` in `v[start..end]`.
pub fn find_char_in(v: &Vec<char>, start: usize, end: usize, c: char) -> (r: Option<usize>)
    requires
        start <= end <= v@.len(),
    ensures
        shift(find_char(v@.subrange(start as int, end as int), c), start as int) == match r {
            Some(i) => Some(i as int),
            None => None::<int>,
        },
        r matches Some(i) ==> start <= i < end,
{
    let mut p = start;
    while p < end
        invariant
            start <= p <= end <= v@.len(),
            shift(find_char(v@.subrange(start as int, end as int), c), start as int) == shift(
                find_char(v@.subrange(p as int, end as int), c),
                p as int,
            ),
        decreases end - p,
    {
        if v[p] == c {
            return Some(p);
        }
        assert(v@.subrange(p as int, end as int).drop_first() =~= v@.subrange(
            p + 1,
            end as int,
        ));
        p = p + 1;
    }
    None
}

/// Position in `v` of the first `a` followed by `b` in `v[start..end]`.
pub fn find_pair_in(v: &Vec<char>, start: usize, end: usize, a: char, b: char) -> (r: Option<
    usize,
>)
    requires
        start <= end <= v@.len(),
    ensures
        shift(find_pair(v@.subrange(start as int, end as int), a, b), start as int) == match r {
            Some(i) => Some(i as int),
            None => None::<int>,
        },
        r matches Some(i) ==> start <= i && i + 2 <= end,
{
    let mut p = start;
    while end - p >= 2
        invariant
            start <= p <= end <= v@.len(),
            shift(find_pair(v@.subrange(start as int, end as int), a, b), start as int) == shift(
                find_pair(v@.subrange(p as int, end as int), a, b),
                p as int,
            ),
        decreases end - p,
    {
        if v[p] == a && v[p + 1] == b {
            return Some(p);
        }
        assert(v@.subrange(p as int, end as int).drop_first() =~= v@.subrange(
            p + 1,
            end as int,
        ));
        p = p + 1;
    }
    None
}

/// Why a decimal integer failed to parse (`core::num::IntErrorKind`).
#[derive(Clone, Copy, Debug, PartialEq, Eq, Structural)]
pub enum IntErrorKind {
    /// The text is empty.
    Empty,
    /// A character is not an ASCII digit (or the text is a lone sign).
    InvalidDigit,
    /// The value exceeds the target type.
    PosOverflow,
}

/// ASCII decimal digit.
pub open spec fn is_ascii_digit(c: char) -> bool {
    '0' <= c && c <= '9'
}

/// The digits of `d`, read left to right onto `acc`, as the standard
/// library does for unsigned integers no larger than `max`: each character
/// must be an ASCII digit, checked before the running value overflows.
pub open spec fn scan_digits(d: Seq<char>, acc: nat, max: nat) -> Result<nat, IntErrorKind>
    decreases d.len(),
{
    if d.len() == 0 {
        Ok(acc)
    } else if !is_ascii_digit(d[0]) {
        Err(IntErrorKind::InvalidDigit)
    } else {
        let v = acc * 10 + (d[0] as nat - '0' as nat);
        if v > max {
            Err(IntErrorKind::PosOverflow)
        } else {
            scan_digits(d.drop_first(), v as nat, max)
        }
    }
}

/// `str::parse` for an unsigned integer type whose largest value is `max`:
/// an optional leading `+`, then one or more ASCII digits.
pub open spec fn parse_unsigned(s: Seq<char>, max: nat) -> Result<nat, IntErrorKind> {
    if s.len() == 0 {
        Err(IntErrorKind::Empty)
    } else if s[0] == '+' {
        if s.len() == 1 {
            Err(IntErrorKind::InvalidDigit)
        } else {
            scan_digits(s.drop_first(), 0, max)
        }
    } else {
        scan_digits(s, 0, max)
    }
}

/// A successful scan never goes past `max`.
pub proof fn lemma_scan_digits_bound(d: Seq<char>, acc: nat, max: nat)
    requires
        acc <= max,
    ensures
        scan_digits(d, acc, max) matches Ok(v) ==> v <= max,
    decreases d.len(),
{
    if d.len() > 0 && is_ascii_digit(d[0]) {
        let v = acc * 10 + (d[0] as nat - '0' as nat);
        if v <= max {
            lemma_scan_digits_bound(d.drop_first(), v as nat, max);
        }
    }
}

/// A successful parse gives a value no larger than `max`.
pub proof fn lemma_parse_unsigned_bound(s: Seq<char>, max: nat)
    ensures
        parse_unsigned(s, max) matches Ok(v) ==> v <= max,
{
    if s.len() > 0 {
        if s[0] == '+' {
            lemma_scan_digits_bound(s.drop_first(), 0, max);
        } else {
            lemma_scan_digits_bound(s, 0, max);
        }
    }
}

/// The decimal digit character for `d < 10`.
pub open spec fn digit_char(d: nat) -> char {
    (d + 48) as char
}

/// The decimal text of `n`, without sign or leading zeros.
pub open spec fn decimal(n: nat) -> Seq<char>
    decreases n,
{
    if n < 10 {
        seq![digit_char(n)]
    } else {
        decimal(n / 10).push(digit_char(n % 10))
    }
}

proof fn lemma_scan_digits_concat(s: Seq<char>, t: Seq<char>, acc: nat, max: nat)
    ensures
        scan_digits(s + t, acc, max) == match scan_digits(s, acc, max) {
            Ok(v) => scan_digits(t, v, max),
            Err(e) => Err(e),
        },
    decreases s.len(),
{
    if s.len() == 0 {
        assert(s + t =~= t);
    } else {
        assert((s + t)[0] == s[0]);
        assert((s + t).drop_first() =~= s.drop_first() + t);
        if is_ascii_digit(s[0]) {
            let v = acc * 10 + (s[0] as nat - '0' as nat);
            if v <= max {
                lemma_scan_digits_concat(s.drop_first(), t, v as nat, max);
            }
        }
    }
}

proof fn lemma_decimal_digits(n: nat)
    ensures
        decimal(n).len() > 0,
        forall|i: int| 0 <= i < decimal(n).len() ==> is_ascii_digit(#[trigger] decimal(n)[i]),
    decreases n,
{
    if n >= 10 {
        lemma_decimal_digits(n / 10);
        let p = decimal(n / 10);
        assert forall|i: int| 0 <= i < decimal(n).len() implies is_ascii_digit(
            #[trigger] decimal(n)[i],
        ) by {
            if i < p.len() {
                assert(decimal(n)[i] == p[i]);
            }
        }
    }
}

proof fn lemma_scan_decimal(n: nat, max: nat)
    ensures
        n <= max ==> scan_digits(decimal(n), 0, max) == Ok::<nat, IntErrorKind>(n),
        n > max ==> scan_digits(decimal(n), 0, max) == Err::<nat, IntErrorKind>(
            IntErrorKind::PosOverflow,
        ),
    decreases n,
{
    let c = digit_char(n % 10);
    assert(c as nat - '0' as nat == n % 10);
    let one: Seq<char> = seq![c];
    assert(one.drop_first() =~= Seq::<char>::empty());
    assert(is_ascii_digit(c));
    if n < 10 {
        assert(decimal(n) == one);
        assert(n % 10 == n);
        assert(scan_digits(Seq::<char>::empty(), n, max) == Ok::<nat, IntErrorKind>(n));
    } else {
        lemma_scan_decimal(n / 10, max);
        assert(decimal(n) =~= decimal(n / 10) + one);
        lemma_scan_digits_concat(decimal(n / 10), one, 0, max);
        assert((n / 10) * 10 + n % 10 == n);
        assert(scan_digits(Seq::<char>::empty(), n, max) == Ok::<nat, IntErrorKind>(n));
    }
}

/// A decimal is read as itself: for every `n` up to `max` the decimal text
/// of `n`, with or without a leading `+`, parses to `n`; for every larger
/// `n` it fails with `PosOverflow`. A successful parse never exceeds `max`.
pub proof fn law_parse_unsigned_decimal(n: nat, max: nat, s: Seq<char>)
    ensures
        n <= max ==> parse_unsigned(decimal(n), max) == Ok::<nat, IntErrorKind>(n),
        n <= max ==> parse_unsigned(seq!['+'] + decimal(n), max) == Ok::<nat, IntErrorKind>(n),
        n > max ==> parse_unsigned(decimal(n), max) == Err::<nat, IntErrorKind>(
            IntErrorKind::PosOverflow,
        ),
        parse_unsigned(s, max) matches Ok(v) ==> v <= max,
{
    lemma_decimal_digits(n);
    lemma_scan_decimal(n, max);
    let d = decimal(n);
    assert(is_ascii_digit(d[0]));
    let p = seq!['+'] + d;
    assert(p[0] == '+');
    assert(p.drop_first() =~= d);
    lemma_parse_unsigned_bound(s, max);
}

/// The message that the standard library shows for a failed integer parse.
pub open spec fn int_error_message(kind: IntErrorKind) -> Seq<char> {
    match kind {
        IntErrorKind::Empty => "cannot parse integer from empty string"@,
        IntErrorKind::InvalidDigit => "invalid digit found in string"@,
        IntErrorKind::PosOverflow => "number too large to fit in target type"@,
    }
}

/// The message for a failed integer parse (see `int_error_message`).
pub fn int_error_text(kind: IntErrorKind) -> (s: &'static str)
    ensures
        s@ == int_error_message(kind),
{
    match kind {
        IntErrorKind::Empty => "cannot parse integer from empty string",
        IntErrorKind::InvalidDigit => "invalid digit found in string",
        IntErrorKind::PosOverflow => "number too large to fit in target type",
    }
}

/// Parses `s` as an unsigned integer no larger than `max` (see
/// `parse_unsigned`).
pub fn parse_unsigned_text(s: &str, max: u64) -> (r: Result<u64, IntErrorKind>)
    ensures
        match r {
            Ok(v) => parse_unsigned(s@, max as nat) == Ok::<nat, IntErrorKind>(v as nat),
            Err(k) => parse_unsigned(s@, max as nat) == Err::<nat, IntErrorKind>(k),
        },
{
    let v = chars_of(s);
    let n = v.len();
    if n == 0 {
        return Err(IntErrorKind::Empty);
    }
    let mut i: usize = 0;
    if v[0] == '+' {
        if n == 1 {
            return Err(IntErrorKind::InvalidDigit);
        }
        i = 1;
    }
    let ghost rest0 = v@.subrange(i as int, n as int);
    assert(i == 1 ==> rest0 =~= v@.drop_first());
    assert(i == 0 ==> rest0 =~= v@);
    let mut acc: u64 = 0;
    while i < n
        invariant
            n == v@.len(),
            v@ == s@,
            i <= n,
            acc <= max,
            parse_unsigned(s@, max as nat) == scan_digits(
                v@.subrange(i as int, n as int),
                acc as nat,
                max as nat,
            ),
        decreases n - i,
    {
        let c = v[i];
        assert(v@.subrange(i as int, n as int).drop_first() =~= v@.subrange(i + 1, n as int));
        if !('0' <= c && c <= '9') {
            return Err(IntErrorKind::InvalidDigit);
        }
        let d = (c as u32 - '0' as u32) as u64;
        if d > max {
            assert(acc * 10 + d > max) by (nonlinear_arith)
                requires d > max, acc >= 0;
            return Err(IntErrorKind::PosOverflow);
        }
        if acc > (max - d) / 10 {
            assert(acc * 10 + d > max) by (nonlinear_arith)
                requires acc > (max - d) / 10, d <= 9, d <= max;
            return Err(IntErrorKind::PosOverflow);
        }
        assert(acc * 10 + d <= max) by (nonlinear_arith)
            requires acc <= (max - d) / 10, d <= max;
        acc = acc * 10 + d;
        i = i + 1;
    }
    Ok(acc)
}

/// `s` without every trailing copy of `c` (`str::trim_end_matches` with a
/// character).
pub open spec fn trim_end_char(s: Seq<char>, c: char) -> Seq<char>
    decreases s.len(),
{
    if s.len() > 0 && s.last() == c {
        trim_end_char(s.drop_last(), c)
    } else {
        s
    }
}

/// `s` without every trailing copy of `suffix` (`str::trim_end_matches`
/// with a non-empty string).
pub open spec fn trim_end_suffix(s: Seq<char>, suffix: Seq<char>) -> Seq<char>
    decreases s.len(),
{
    if suffix.len() > 0 && s.len() >= suffix.len() && s.subrange(
        s.len() - suffix.len(),
        s.len() as int,
    ) == suffix {
        trim_end_suffix(s.subrange(0, s.len() - suffix.len()), suffix)
    } else {
        s
    }
}

/// Whether `v[start..end]` ends with `suffix`.
fn ends_with_at(v: &Vec<char>, end: usize, suffix: &Vec<char>) -> (r: bool)
    requires
        end <= v@.len(),
    ensures
        r == (end >= suffix@.len() && v@.subrange(0, end as int).subrange(
            end - suffix@.len(),
            end as int,
        ) == suffix@),
{
    let m = suffix.len();
    if end < m {
        return false;
    }
    let base = end - m;
    let mut k: usize = 0;
    while k < m
        invariant
            base + m == end,
            end <= v@.len(),
            m == suffix@.len(),
            k <= m,
            forall|q: int| 0 <= q < k ==> v@[base + q] == suffix@[q],
        decreases m - k,
    {
        if v[base + k] != suffix[k] {
            assert(v@.subrange(0, end as int).subrange(base as int, end as int)[k as int]
                != suffix@[k as int]);
            return false;
        }
        k = k + 1;
    }
    assert(v@.subrange(0, end as int).subrange(base as int, end as int) =~= suffix@);
    true
}

/// `s` without every trailing copy of `suffix` (see `trim_end_suffix`).
pub fn trim_end_matches_text(s: &str, suffix: &str) -> (r: String)
    ensures
        r@ == trim_end_suffix(s@, suffix@),
{
    let v = chars_of(s);
    let suf = chars_of(suffix);
    let mut end = v.len();
    assert(v@.subrange(0, end as int) =~= v@);
    if suf.len() > 0 {
        while ends_with_at(&v, end, &suf)
            invariant
                end <= v@.len(),
                suf@.len() > 0,
                trim_end_suffix(v@, suf@) == trim_end_suffix(v@.subrange(0, end as int), suf@),
            decreases end,
        {
            assert(v@.subrange(0, end as int).subrange(0, end - suf@.len()) =~= v@.subrange(
                0,
                end - suf@.len(),
            ));
            end = end - suf.len();
        }
    } else {
        assert(v@.subrange(0, end as int) =~= v@);
    }
    assert(v@.subrange(0, end as int) =~= v@.subrange(0, end as int));
    text_between(&v, 0, end)
}

/// The characters `v[a..b]` as a string.
pub fn text_between(v: &Vec<char>, a: usize, b: usize) -> (r: String)
    requires
        a <= b <= v@.len(),
    ensures
        r@ == v@.subrange(a as int, b as int),
{
    let mut out = String::new();
    let mut k = a;
    while k < b
        invariant
            a <= k <= b <= v@.len(),
            out@ == v@.subrange(a as int, k as int),
        decreases b - k,
    {
        out.append(char_text(v[k]).as_str());
        assert(v@.subrange(a as int, k + 1) =~= v@.subrange(a as int, k as int).push(v@[k as int]));
        k = k + 1;
    }
    out
}

/// `char::to_string`: the one-character string `c`.
#[verifier::external_body]
pub(crate) fn char_text(c: char) -> (s: String)
    ensures
        s@ == seq![c],
{
    c.to_string()
}

/// Whether `a` and `b` hold the same characters.
pub fn text_eq(a: &str, b: &str) -> (r: bool)
    ensures
        r == (a@ == b@),
{
    let x = chars_of(a);
    let y = chars_of(b);
    if x.len() != y.len() {
        return false;
    }
    let mut k: usize = 0;
    while k < x.len()
        invariant
            x@.len() == y@.len(),
            x@ == a@,
            y@ == b@,
            k <= x@.len(),
            forall|q: int| 0 <= q < k ==> x@[q] == y@[q],
        decreases x@.len() - k,
    {
        if x[k] != y[k] {
            assert(a@[k as int] != b@[k as int]);
            return false;
        }
        k = k + 1;
    }
    assert(x@ =~= y@);
    true
}

/// ASCII lower case of `c`.
pub open spec fn ascii_lower(c: char) -> char {
    if 'A' <= c && c <= 'Z' {
        ((c as u32) + 32) as char
    } else {
        c
    }
}

/// `s` equals the lower-case word `lit`, ignoring ASCII case.
pub open spec fn eq_ignore_case(s: Seq<char>, lit: Seq<char>) -> bool {
    s.len() == lit.len() && forall|i: int| 0 <= i < s.len() ==> ascii_lower(#[trigger] s[i]) == lit[i]
}

/// `s` without one leading `+` or `-`.
pub open spec fn drop_sign(s: Seq<char>) -> Seq<char> {
    if s.len() > 0 && (s[0] == '+' || s[0] == '-') {
        s.drop_first()
    } else {
        s
    }
}

/// Digits with at most one decimal point and at least one digit.
pub open spec fn is_mantissa(m: Seq<char>) -> bool {
    &&& forall|i: int| 0 <= i < m.len() ==> is_ascii_digit(#[trigger] m[i]) || m[i] == '.'
    &&& forall|i: int, j: int| 0 <= i < j < m.len() ==> !(#[trigger] m[i] == '.' && #[trigger] m[j] == '.')
    &&& exists|i: int| 0 <= i < m.len() && is_ascii_digit(#[trigger] m[i])
}

/// An optional sign followed by one or more digits.
pub open spec fn is_exponent(x: Seq<char>) -> bool {
    let d = drop_sign(x);
    d.len() > 0 && forall|i: int| 0 <= i < d.len() ==> is_ascii_digit(#[trigger] d[i])
}

/// Index of the first `e` or `E` in `s`.
pub open spec fn find_exp_mark(s: Seq<char>) -> Option<int>
    decreases s.len(),
{
    if s.len() == 0 {
        None
    } else if s[0] == 'e' || s[0] == 'E' {
        Some(0)
    } else {
        match find_exp_mark(s.drop_first()) {
            Some(i) => Some(i + 1),
            None => None,
        }
    }
}

/// The grammar that `f32::from_str` accepts: an optional sign, then `inf`,
/// `infinity` or `nan` in any case, or a decimal number (digits with at most
/// one point and at least one digit) with an optional exponent (`e` or `E`,
/// an optional sign, one or more digits).
pub open spec fn is_float_literal(s: Seq<char>) -> bool {
    let b = drop_sign(s);
    ||| eq_ignore_case(b, "inf"@)
    ||| eq_ignore_case(b, "infinity"@)
    ||| eq_ignore_case(b, "nan"@)
    ||| match find_exp_mark(b) {
        Some(e) => is_mantissa(b.take(e)) && is_exponent(b.skip(e + 1)),
        None => is_mantissa(b),
    }
}

/// The message that the standard library shows for a failed float parse.
pub open spec fn float_error_message(s: Seq<char>) -> Seq<char> {
    if s.len() == 0 {
        "cannot parse float from empty string"@
    } else {
        "invalid float literal"@
    }
}

/// The message for a failed float parse of `s` (see `float_error_message`).
pub fn float_error_text(s: &str) -> (m: &'static str)
    ensures
        m@ == float_error_message(s@),
{
    if s.is_empty() {
        "cannot parse float from empty string"
    } else {
        "invalid float literal"
    }
}

fn lower_char(c: char) -> (r: char)
    ensures
        r == ascii_lower(c),
{
    if 'A' <= c && c <= 'Z' {
        let u = (c as u32) + 32;
        assert(u < 0xD800);
        char_from_ascii(u)
    } else {
        c
    }
}

/// The character with the ASCII code `u`.
fn char_from_ascii(u: u32) -> (c: char)
    requires
        u < 128,
    ensures
        c == u as char,
{
    (u as u8) as char
}

/// Whether `v[start..end]` equals the lower-case word `lit`, ignoring case.
fn eq_ignore_case_at(v: &Vec<char>, start: usize, end: usize, lit: &str) -> (r: bool)
    requires
        start <= end <= v@.len(),
    ensures
        r == eq_ignore_case(v@.subrange(start as int, end as int), lit@),
{
    let w = chars_of(lit);
    if end - start != w.len() {
        return false;
    }
    let ghost sub = v@.subrange(start as int, end as int);
    let mut k: usize = 0;
    while k < w.len()
        invariant
            w@ == lit@,
            sub == v@.subrange(start as int, end as int),
            end - start == w@.len(),
            start <= end <= v@.len(),
            k <= w@.len(),
            forall|q: int| 0 <= q < k ==> ascii_lower(#[trigger] sub[q]) == w@[q],
        decreases w@.len() - k,
    {
        if lower_char(v[start + k]) != w[k] {
            assert(ascii_lower(sub[k as int]) != lit@[k as int]);
            return false;
        }
        k = k + 1;
    }
    true
}

/// Whether `v[start..end]` is a mantissa (see `is_mantissa`).
fn is_mantissa_at(v: &Vec<char>, start: usize, end: usize) -> (r: bool)
    requires
        start <= end <= v@.len(),
    ensures
        r == is_mantissa(v@.subrange(start as int, end as int)),
{
    let ghost m = v@.subrange(start as int, end as int);
    let mut dot: Option<usize> = None;
    let mut digit = false;
    let mut k = start;
    while k < end
        invariant
            m == v@.subrange(start as int, end as int),
            start <= k <= end <= v@.len(),
            forall|i: int| 0 <= i < k - start ==> is_ascii_digit(#[trigger] m[i]) || m[i] == '.',
            match dot {
                Some(d) => start <= d < k && m[d - start] == '.' && forall|i: int|
                    0 <= i < k - start && i != d - start ==> #[trigger] m[i] != '.',
                None => forall|i: int| 0 <= i < k - start ==> #[trigger] m[i] != '.',
            },
            digit == exists|i: int| 0 <= i < k - start && is_ascii_digit(#[trigger] m[i]),
        decreases end - k,
    {
        let c = v[k];
        assert(m[k - start] == c);
        if '0' <= c && c <= '9' {
            digit = true;
        } else if c == '.' {
            match dot {
                Some(d) => {
                    assert(m[d - start] == '.' && m[k - start] == '.');
                    return false;
                },
                None => {
                    dot = Some(k);
                },
            }
        } else {
            return false;
        }
        k = k + 1;
    }
    digit
}

/// Whether `v[start..end]` is an exponent (see `is_exponent`).
fn is_exponent_at(v: &Vec<char>, start: usize, end: usize) -> (r: bool)
    requires
        start <= end <= v@.len(),
    ensures
        r == is_exponent(v@.subrange(start as int, end as int)),
{
    let ghost x = v@.subrange(start as int, end as int);
    let mut k = start;
    if k < end && (v[k] == '+' || v[k] == '-') {
        k = k + 1;
    }
    assert(drop_sign(x) =~= v@.subrange(k as int, end as int));
    if k == end {
        return false;
    }
    let first = k;
    assert(drop_sign(x) == v@.subrange(first as int, end as int));
    while k < end
        invariant
            first <= k <= end <= v@.len(),
            x == v@.subrange(start as int, end as int),
            drop_sign(x) == v@.subrange(first as int, end as int),
            forall|i: int| first <= i < k ==> is_ascii_digit(#[trigger] v@[i]),
        decreases end - k,
    {
        if !('0' <= v[k] && v[k] <= '9') {
            assert(v@.subrange(first as int, end as int)[k - first] == v@[k as int]);
            return false;
        }
        k = k + 1;
    }
    assert forall|i: int| 0 <= i < end - first implies is_ascii_digit(#[trigger] v@.subrange(
        first as int,
        end as int,
    )[i]) by {
        assert(v@.subrange(first as int, end as int)[i] == v@[first + i]);
    }
    true
}

/// Whether `s` parses as an `f32` (see `is_float_literal`).
pub fn is_float_text(s: &str) -> (r: bool)
    ensures
        r == is_float_literal(s@),
{
    let v = chars_of(s);
    let n = v.len();
    let mut start: usize = 0;
    if n > 0 && (v[0] == '+' || v[0] == '-') {
        start = 1;
    }
    let ghost b = drop_sign(v@);
    assert(b =~= v@.subrange(start as int, n as int));
    if eq_ignore_case_at(&v, start, n, "inf") || eq_ignore_case_at(&v, start, n, "infinity")
        || eq_ignore_case_at(&v, start, n, "nan") {
        return true;
    }
    let mut k = start;
    while k < n && v[k] != 'e' && v[k] != 'E'
        invariant
            start <= k <= n,
            n == v@.len(),
            b == v@.subrange(start as int, n as int),
            find_exp_mark(b) == shift(find_exp_mark(v@.subrange(k as int, n as int)), k - start),
        decreases n - k,
    {
        assert(v@.subrange(k as int, n as int).drop_first() =~= v@.subrange(k + 1, n as int));
        k = k + 1;
    }
    if k < n {
        assert(b.take(k - start) =~= v@.subrange(start as int, k as int));
        assert(b.skip(k - start + 1) =~= v@.subrange(k + 1, n as int));
        is_mantissa_at(&v, start, k) && is_exponent_at(&v, k + 1, n)
    } else {
        is_mantissa_at(&v, start, n)
    }
}

} // verus!
