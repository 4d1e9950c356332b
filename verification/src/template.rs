//! Lines written from a template: fixed literals with a field between each
//! two, `L0 f1 L1 f2 ... fn Ln`. Reading one takes each field as short as
//! possible, left to right, with the last literal ending the line (the
//! lazy, anchored reading of `^L0(.*?)L1(.*?)...(.*?)Ln$`).
use vstd::prelude::*;

use crate::text::{chars_of, text_between};

verus! {

/// The first position at or after `q` where `lit` occurs in `text`.
pub open spec fn find_sub(text: Seq<char>, lit: Seq<char>, q: int) -> Option<int>
    decreases text.len() - q,
{
    if q < 0 || q + lit.len() > text.len() {
        None
    } else if lit.len() == 0 || text.subrange(q, q + lit.len()) == lit {
        Some(q)
    } else {
        find_sub(text, lit, q + 1)
    }
}

/// The fields `i..` of the template `lits` read from `text` at `pos`:
/// field `i` runs to the first occurrence of literal `i`, and the last
/// field runs to the last literal, which must end the text.
pub open spec fn fields_from(text: Seq<char>, lits: Seq<Seq<char>>, i: int, pos: int) -> Option<
    Seq<Seq<char>>,
>
    decreases lits.len() - i,
{
    if i < 1 || i >= lits.len() || pos < 0 || pos > text.len() {
        None
    } else if i == lits.len() - 1 {
        let l = lits[i];
        if text.len() - l.len() >= pos && text.subrange(text.len() - l.len(), text.len() as int)
            == l {
            Some(seq![text.subrange(pos, text.len() - l.len())])
        } else {
            None
        }
    } else {
        match find_sub(text, lits[i], pos) {
            Some(q) => match fields_from(text, lits, i + 1, q + lits[i].len()) {
                Some(rest) => Some(seq![text.subrange(pos, q)] + rest),
                None => None,
            },
            None => None,
        }
    }
}

/// The fields of `text` read with the template `lits` (at least two
/// literals), `None` when the text does not have the template's form.
pub open spec fn template_fields(text: Seq<char>, lits: Seq<Seq<char>>) -> Option<Seq<Seq<char>>> {
    if lits.len() >= 2 && text.len() >= lits[0].len() && text.subrange(0, lits[0].len() as int)
        == lits[0] {
        fields_from(text, lits, 1, lits[0].len() as int)
    } else {
        None
    }
}

/// `text[p..]` is `gs[0] lits[i] gs[1] lits[i+1] ...` up to the last
/// literal, which ends the text.
pub open spec fn decomposes_from(
    text: Seq<char>,
    lits: Seq<Seq<char>>,
    i: int,
    p: int,
    gs: Seq<Seq<char>>,
) -> bool
    decreases lits.len() - i,
{
    if i < 1 || i >= lits.len() || gs.len() != lits.len() - i || p < 0 {
        false
    } else {
        let g = gs[0];
        let l = lits[i];
        let q = p + g.len();
        &&& q + l.len() <= text.len()
        &&& text.subrange(p, q) == g
        &&& text.subrange(q, q + l.len()) == l
        &&& if i == lits.len() - 1 {
            q + l.len() == text.len()
        } else {
            decomposes_from(text, lits, i + 1, q + l.len(), gs.drop_first())
        }
    }
}

/// `text` is the template `lits` filled with the fields `gs`.
pub open spec fn is_instance(text: Seq<char>, lits: Seq<Seq<char>>, gs: Seq<Seq<char>>) -> bool {
    &&& lits.len() >= 2
    &&& text.len() >= lits[0].len()
    &&& text.subrange(0, lits[0].len() as int) == lits[0]
    &&& decomposes_from(text, lits, 1, lits[0].len() as int, gs)
}

proof fn lemma_find_sub_first(text: Seq<char>, lit: Seq<char>, q: int, r: int)
    requires
        0 <= q <= r,
        r + lit.len() <= text.len(),
        text.subrange(r, r + lit.len()) == lit,
    ensures
        find_sub(text, lit, q) matches Some(f) && q <= f <= r && f + lit.len() <= text.len()
            && text.subrange(f, f + lit.len()) == lit,
    decreases r - q,
{
    if lit.len() != 0 && text.subrange(q, q + lit.len()) != lit {
        lemma_find_sub_first(text, lit, q + 1, r);
    }
}

pub proof fn lemma_find_sub_found(text: Seq<char>, lit: Seq<char>, q: int)
    ensures
        find_sub(text, lit, q) matches Some(f) ==> q <= f && f + lit.len() <= text.len()
            && text.subrange(f, f + lit.len()) == lit,
    decreases text.len() - q,
{
    if 0 <= q && q + lit.len() <= text.len() && lit.len() != 0 && text.subrange(
        q,
        q + lit.len(),
    ) != lit {
        lemma_find_sub_found(text, lit, q + 1);
    } else if 0 <= q && q + lit.len() <= text.len() && lit.len() == 0 {
        assert(text.subrange(q, q) =~= lit);
    }
}

proof fn lemma_fields_from_complete(
    text: Seq<char>,
    lits: Seq<Seq<char>>,
    i: int,
    pos: int,
    p: int,
    gs: Seq<Seq<char>>,
)
    requires
        0 <= pos <= p,
        decomposes_from(text, lits, i, p, gs),
    ensures
        fields_from(text, lits, i, pos) is Some,
    decreases lits.len() - i,
{
    let l = lits[i];
    let q = p + gs[0].len();
    if i == lits.len() - 1 {
    } else {
        lemma_find_sub_first(text, l, pos, q);
        let f = find_sub(text, l, pos)->0;
        lemma_fields_from_complete(text, lits, i + 1, f + l.len(), q + l.len(), gs.drop_first());
    }
}

proof fn lemma_fields_from_sound(text: Seq<char>, lits: Seq<Seq<char>>, i: int, pos: int)
    requires
        fields_from(text, lits, i, pos) is Some,
    ensures
        decomposes_from(text, lits, i, pos, fields_from(text, lits, i, pos)->0),
    decreases lits.len() - i,
{
    let fs = fields_from(text, lits, i, pos)->0;
    let l = lits[i];
    if i == lits.len() - 1 {
        assert(fs[0].len() == text.len() - l.len() - pos);
    } else {
        lemma_find_sub_found(text, l, pos);
        let q = find_sub(text, l, pos)->0;
        lemma_fields_from_sound(text, lits, i + 1, q + l.len());
        let rest = fields_from(text, lits, i + 1, q + l.len())->0;
        assert(fs.drop_first() =~= rest);
        assert(fs[0] == text.subrange(pos, q));
    }
}

/// The reading is exact: a text has the template's form (for some fields)
/// exactly when reading it succeeds, and the fields read fill the template
/// back into the text.
pub proof fn law_template_reading(text: Seq<char>, lits: Seq<Seq<char>>, gs: Seq<Seq<char>>)
    ensures
        is_instance(text, lits, gs) ==> template_fields(text, lits) is Some,
        template_fields(text, lits) matches Some(fs) ==> is_instance(text, lits, fs),
{
    if is_instance(text, lits, gs) {
        lemma_fields_from_complete(text, lits, 1, lits[0].len() as int, lits[0].len() as int, gs);
    }
    if template_fields(text, lits) is Some {
        lemma_fields_from_sound(text, lits, 1, lits[0].len() as int);
    }
}

/// Each field but the last is as short as possible: the literal that
/// follows it occurs nowhere earlier in the text from the field's start.
pub proof fn law_fields_shortest(text: Seq<char>, lits: Seq<Seq<char>>, i: int, pos: int, r: int)
    requires
        fields_from(text, lits, i, pos) is Some,
        i < lits.len() - 1,
        pos <= r < pos + fields_from(text, lits, i, pos)->0[0].len(),
    ensures
        text.subrange(r, r + lits[i].len()) != lits[i],
{
    lemma_find_sub_found(text, lits[i], pos);
    let q = find_sub(text, lits[i], pos)->0;
    if r + lits[i].len() <= text.len() && text.subrange(r, r + lits[i].len()) == lits[i] {
        lemma_find_sub_first(text, lits[i], pos, r);
    }
}

/// Whether `lit` occurs in `text` at `q`.
fn occurs_at(text: &Vec<char>, lit: &Vec<char>, q: usize) -> (r: bool)
    requires
        q + lit@.len() <= text@.len(),
    ensures
        r == (text@.subrange(q as int, q + lit@.len()) == lit@),
{
    let n = text.len();
    let mut k: usize = 0;
    while k < lit.len()
        invariant
            n == text@.len(),
            q + lit@.len() <= text@.len(),
            k <= lit@.len(),
            forall|j: int| 0 <= j < k ==> text@[q + j] == lit@[j],
        decreases lit@.len() - k,
    {
        if text[q + k] != lit[k] {
            assert(text@.subrange(q as int, q + lit@.len())[k as int] != lit@[k as int]);
            return false;
        }
        k = k + 1;
    }
    assert(text@.subrange(q as int, q + lit@.len()) =~= lit@);
    true
}

/// The first position at or after `pos` where `lit` occurs (see
/// `find_sub`).
pub fn find_sub_at(text: &Vec<char>, lit: &Vec<char>, pos: usize) -> (r: Option<usize>)
    requires
        pos <= text@.len(),
    ensures
        match r {
            Some(q) => find_sub(text@, lit@, pos as int) == Some(q as int),
            None => find_sub(text@, lit@, pos as int) is None,
        },
{
    let n = text.len();
    let m = lit.len();
    if m > n {
        return None;
    }
    if m == 0 {
        return Some(pos);
    }
    let mut q = pos;
    while q <= n - m
        invariant
            n == text@.len(),
            m == lit@.len(),
            m <= n,
            m > 0,
            pos <= q,
            find_sub(text@, lit@, pos as int) == find_sub(text@, lit@, q as int),
        decreases n - q,
    {
        if occurs_at(text, lit, q) {
            return Some(q);
        }
        q = q + 1;
    }
    None
}

/// The templates' literals as plain values.
pub open spec fn lits_model(lits: Seq<Vec<char>>) -> Seq<Seq<char>> {
    lits.map_values(|l: Vec<char>| l@)
}

/// The literals `lits` as character vectors.
pub fn template_literals(lits: &[&str]) -> (r: Vec<Vec<char>>)
    ensures
        r@.len() == lits@.len(),
        forall|k: int| 0 <= k < lits@.len() ==> #[trigger] r@[k]@ == lits@[k]@,
{
    let mut r: Vec<Vec<char>> = Vec::new();
    let mut k: usize = 0;
    while k < lits.len()
        invariant
            k <= lits@.len(),
            r@.len() == k,
            forall|j: int| 0 <= j < k ==> #[trigger] r@[j]@ == lits@[j]@,
        decreases lits@.len() - k,
    {
        r.push(chars_of(lits[k]));
        k = k + 1;
    }
    r
}

/// Reads `text` with the template `lits` (see `template_fields`).
pub fn read_template(text: &str, lits: &Vec<Vec<char>>) -> (r: Option<Vec<String>>)
    ensures
        match r {
            Some(fs) => template_fields(text@, lits_model(lits@)) == Some(
                fs@.map_values(|s: String| s@),
            ),
            None => template_fields(text@, lits_model(lits@)) is None,
        },
{
    let v = chars_of(text);
    let ghost ls = lits_model(lits@);
    let nl = lits.len();
    if nl < 2 {
        return None;
    }
    let first = &lits[0];
    assert(first@ == ls[0]);
    if v.len() < first.len() || !occurs_at(&v, first, 0) {
        return None;
    }
    let mut fields: Vec<String> = Vec::new();
    let mut pos = first.len();
    let nv = v.len();
    let mut i: usize = 1;
    while i < nl - 1
        invariant
            v@ == text@,
            nv == v@.len(),
            ls == lits_model(lits@),
            nl == lits@.len(),
            nl >= 2,
            1 <= i <= nl - 1,
            pos <= v@.len(),
            template_fields(text@, ls) == match fields_from(text@, ls, i as int, pos as int) {
                Some(rest) => Some(fields@.map_values(|s: String| s@) + rest),
                None => None::<Seq<Seq<char>>>,
            },
        decreases nl - i,
    {
        let lit = &lits[i];
        assert(lit@ == ls[i as int]);
        match find_sub_at(&v, lit, pos) {
            Some(q) => {
                proof {
                    lemma_find_sub_found(v@, lit@, pos as int);
                }
                let f = text_between(&v, pos, q);
                let ghost before = fields@.map_values(|s: String| s@);
                fields.push(f);
                proof {
                    let now = fields@.map_values(|s: String| s@);
                    assert(now =~= before.push(f@));
                    match fields_from(text@, ls, i + 1, q + lit@.len()) {
                        Some(rest) => {
                            assert(before + (seq![f@] + rest) =~= now + rest);
                        },
                        None => {},
                    }
                }
                pos = q + lit.len();
            },
            None => {
                return None;
            },
        }
        i = i + 1;
    }
    let last = &lits[nl - 1];
    assert(last@ == ls[nl - 1]);
    let n = v.len();
    if n < last.len() || n - last.len() < pos || !occurs_at(&v, last, n - last.len()) {
        return None;
    }
    let f = text_between(&v, pos, n - last.len());
    let ghost before = fields@.map_values(|s: String| s@);
    fields.push(f);
    assert(fields@.map_values(|s: String| s@) =~= before + seq![f@]);
    Some(fields)
}

} // verus!
