//! The text formats: points written `t: (x, y)` and coefficient pairs written
//! `(re, im) & (re, im)`, one per line. Parsing here finds where each number
//! is written; reading a number from its text is left to the caller.

use crate::error::ReadingError;
use vstd::prelude::*;
use vstd::std_specs::iter::IteratorSpec;
use vstd::string::axiom_spec_iter;
use vstd::string::next_postcondition;

verus! {

/// The characters of `s`, in order.
pub fn chars_of(s: &str) -> (v: Vec<char>)
    ensures
        v@ == s@,
{
    broadcast use axiom_spec_iter, next_postcondition;

    let mut v: Vec<char> = Vec::new();
    let mut it = s.chars();
    loop
        invariant
            it.obeys_prophetic_iter_laws(),
            v@ + it.remaining() == s@,
            it.decrease() is Some,
        ensures
            v@ == s@,
        decreases it.decrease()->0,
    {
        match it.next() {
            Some(c) => {
                v.push(c);
            },
            None => {
                assert(v@ + it.remaining() =~= v@);
                break;
            },
        }
    }
    v
}


/// The characters `start .. end` of a text.
#[derive(PartialEq, Eq, Structural, Clone, Copy, Debug)]
pub struct Span {
    pub start: usize,
    pub end: usize,
}

pub open spec fn span(start: int, end: int) -> Span {
    Span { start: start as usize, end: end as usize }
}

/// White space as Unicode's `White_Space` property lists it.
pub open spec fn is_space(c: char) -> bool {
    let u = c as u32;
    (9 <= u <= 13) || u == 32 || u == 0x85 || u == 0xA0 || u == 0x1680 || (0x2000 <= u <= 0x200A)
        || u == 0x2028 || u == 0x2029 || u == 0x202F || u == 0x205F || u == 0x3000
}

/// An opening or a closing parenthesis.
pub open spec fn is_paren(c: char) -> bool {
    c == '(' || c == ')'
}

/// Parentheses when `parens` holds, white space otherwise.
pub open spec fn in_class(c: char, parens: bool) -> bool {
    if parens { is_paren(c) } else { is_space(c) }
}

/// The first position in `lo .. hi` that holds `ch`, or `hi`.
pub open spec fn find(s: Seq<char>, lo: int, hi: int, ch: char) -> int
    decreases hi - lo,
{
    if lo < hi && s[lo] != ch { find(s, lo + 1, hi, ch) } else { lo }
}

/// The first position in `lo .. hi` whose character is outside the class.
pub open spec fn skip_front(s: Seq<char>, lo: int, hi: int, parens: bool) -> int
    decreases hi - lo,
{
    if lo < hi && in_class(s[lo], parens) { skip_front(s, lo + 1, hi, parens) } else { lo }
}

/// One past the last position in `lo .. hi` whose character is outside the class.
pub open spec fn skip_back(s: Seq<char>, lo: int, hi: int, parens: bool) -> int
    decreases hi - lo,
{
    if lo < hi && in_class(s[hi - 1], parens) { skip_back(s, lo, hi - 1, parens) } else { hi }
}

/// `lo .. hi` without the white space at both ends.
pub open spec fn trimmed(s: Seq<char>, lo: int, hi: int) -> (int, int) {
    let a = skip_front(s, lo, hi, false);
    (a, skip_back(s, a, hi, false))
}

/// `lo .. hi` without the parentheses at both ends.
pub open spec fn stripped(s: Seq<char>, lo: int, hi: int) -> (int, int) {
    let a = skip_front(s, lo, hi, true);
    (a, skip_back(s, a, hi, true))
}

/// The maximal runs of characters other than `sep` in `lo .. hi`, in order.
pub open spec fn runs(s: Seq<char>, lo: int, hi: int, sep: char) -> Seq<Span>
    decreases hi - lo,
{
    if lo >= hi {
        Seq::empty()
    } else if s[lo] == sep {
        runs(s, lo + 1, hi, sep)
    } else {
        let e = find(s, lo + 1, hi, sep);
        if e <= lo || e > hi {
            Seq::empty()
        } else {
            seq![span(lo, e)] + runs(s, e, hi, sep)
        }
    }
}

/// A pair written `(first, second)` in `lo .. hi`: white space, then
/// parentheses, are taken off both ends; the first field runs to the first
/// comma and the second from there to the next comma or the end, each without
/// the white space around it. `None` where there is no comma.
pub open spec fn pair_fields(s: Seq<char>, lo: int, hi: int) -> Option<(Span, Span)> {
    let r = trimmed(s, lo, hi);
    let p = stripped(s, r.0, r.1);
    let k1 = find(s, p.0, p.1, ',');
    if k1 >= p.1 {
        None
    } else {
        let k2 = find(s, k1 + 1, p.1, ',');
        let a = trimmed(s, p.0, k1);
        let b = trimmed(s, k1 + 1, k2);
        Some((span(a.0, a.1), span(b.0, b.1)))
    }
}

/// The fields of a point written `t: (x, y)` in `lo .. hi`: the time runs to
/// the first colon, the pair from there to the next colon or the end.
/// `None` where the colon or the comma is missing.
pub open spec fn point_spec(s: Seq<char>, lo: int, hi: int) -> Option<PointFields> {
    let c1 = find(s, lo, hi, ':');
    if c1 >= hi {
        None
    } else {
        let c2 = find(s, c1 + 1, hi, ':');
        let t = trimmed(s, lo, c1);
        match pair_fields(s, c1 + 1, c2) {
            Some(xy) => Some(PointFields { t: span(t.0, t.1), x: xy.0, y: xy.1 }),
            None => None,
        }
    }
}

/// The fields of a coefficient line in `lo .. hi`: its first two non-empty
/// pieces between `&` signs are the pairs of the positive and of the
/// negative harmonic. `None` where there are fewer than two pieces or a
/// piece has no comma.
pub open spec fn coeff_spec(s: Seq<char>, lo: int, hi: int) -> Option<CoeffFields> {
    let pieces = runs(s, lo, hi, '&');
    if pieces.len() < 2 {
        None
    } else {
        match (
            pair_fields(s, pieces[0].start as int, pieces[0].end as int),
            pair_fields(s, pieces[1].start as int, pieces[1].end as int),
        ) {
            (Some(p), Some(n)) => Some(
                CoeffFields { pos_re: p.0, pos_im: p.1, neg_re: n.0, neg_im: n.1 },
            ),
            _ => None,
        }
    }
}

/// Where the three numbers of a point are written.
#[derive(PartialEq, Eq, Structural, Clone, Copy, Debug)]
pub struct PointFields {
    pub t: Span,
    pub x: Span,
    pub y: Span,
}

/// Where the four numbers of a coefficient line are written.
#[derive(PartialEq, Eq, Structural, Clone, Copy, Debug)]
pub struct CoeffFields {
    pub pos_re: Span,
    pub pos_im: Span,
    pub neg_re: Span,
    pub neg_im: Span,
}

fn is_space_char(c: char) -> (r: bool)
    ensures
        r == is_space(c),
{
    let u = c as u32;
    (9 <= u && u <= 13) || u == 32 || u == 0x85 || u == 0xA0 || u == 0x1680 || (0x2000 <= u && u
        <= 0x200A) || u == 0x2028 || u == 0x2029 || u == 0x202F || u == 0x205F || u == 0x3000
}

fn in_class_char(c: char, parens: bool) -> (r: bool)
    ensures
        r == in_class(c, parens),
{
    if parens { c == '(' || c == ')' } else { is_space_char(c) }
}

fn find_char(s: &Vec<char>, lo: usize, hi: usize, ch: char) -> (r: usize)
    requires
        lo <= hi <= s@.len(),
    ensures
        r == find(s@, lo as int, hi as int, ch),
        lo <= r <= hi,
        r < hi ==> s@[r as int] == ch,
{
    let mut i = lo;
    while i < hi && s[i] != ch
        invariant
            lo <= i <= hi <= s@.len(),
            find(s@, i as int, hi as int, ch) == find(s@, lo as int, hi as int, ch),
        decreases hi - i,
    {
        i = i + 1;
    }
    i
}

fn skip_front_exec(s: &Vec<char>, lo: usize, hi: usize, parens: bool) -> (r: usize)
    requires
        lo <= hi <= s@.len(),
    ensures
        r == skip_front(s@, lo as int, hi as int, parens),
        lo <= r <= hi,
{
    let mut i = lo;
    while i < hi && in_class_char(s[i], parens)
        invariant
            lo <= i <= hi <= s@.len(),
            skip_front(s@, i as int, hi as int, parens) == skip_front(s@, lo as int, hi as int, parens),
        decreases hi - i,
    {
        i = i + 1;
    }
    i
}

fn skip_back_exec(s: &Vec<char>, lo: usize, hi: usize, parens: bool) -> (r: usize)
    requires
        lo <= hi <= s@.len(),
    ensures
        r == skip_back(s@, lo as int, hi as int, parens),
        lo <= r <= hi,
{
    let mut i = hi;
    while i > lo && in_class_char(s[i - 1], parens)
        invariant
            lo <= i <= hi <= s@.len(),
            skip_back(s@, lo as int, i as int, parens) == skip_back(s@, lo as int, hi as int, parens),
        decreases i - lo,
    {
        i = i - 1;
    }
    i
}

fn trim_exec(s: &Vec<char>, lo: usize, hi: usize) -> (r: (usize, usize))
    requires
        lo <= hi <= s@.len(),
    ensures
        (r.0 as int, r.1 as int) == trimmed(s@, lo as int, hi as int),
        lo <= r.0 <= r.1 <= hi,
{
    let a = skip_front_exec(s, lo, hi, false);
    (a, skip_back_exec(s, a, hi, false))
}

fn strip_exec(s: &Vec<char>, lo: usize, hi: usize) -> (r: (usize, usize))
    requires
        lo <= hi <= s@.len(),
    ensures
        (r.0 as int, r.1 as int) == stripped(s@, lo as int, hi as int),
        lo <= r.0 <= r.1 <= hi,
{
    let a = skip_front_exec(s, lo, hi, true);
    (a, skip_back_exec(s, a, hi, true))
}

/// The maximal runs of characters other than `sep` in `lo .. hi`.
pub fn runs_of(s: &Vec<char>, lo: usize, hi: usize, sep: char) -> (r: Vec<Span>)
    requires
        lo <= hi <= s@.len(),
    ensures
        r@ == runs(s@, lo as int, hi as int, sep),
{
    let mut out: Vec<Span> = Vec::new();
    let mut i = lo;
    while i < hi
        invariant
            lo <= i <= hi <= s@.len(),
            out@ + runs(s@, i as int, hi as int, sep) == runs(s@, lo as int, hi as int, sep),
        decreases hi - i,
    {
        if s[i] == sep {
            i = i + 1;
        } else {
            let e = find_char(s, i + 1, hi, sep);
            let ghost before = out@;
            out.push(Span { start: i, end: e });
            assert(out@ + runs(s@, e as int, hi as int, sep) =~= before + runs(
                s@,
                i as int,
                hi as int,
                sep,
            ));
            i = e;
        }
    }
    assert(out@ + runs(s@, i as int, hi as int, sep) =~= out@);
    out
}

/// The pair written in `lo .. hi`, as `pair_fields` reads it.
fn pair_exec(s: &Vec<char>, lo: usize, hi: usize) -> (r: Option<(Span, Span)>)
    requires
        lo <= hi <= s@.len(),
    ensures
        r == pair_fields(s@, lo as int, hi as int),
{
    let (r0, r1) = trim_exec(s, lo, hi);
    let (p0, p1) = strip_exec(s, r0, r1);
    let k1 = find_char(s, p0, p1, ',');
    if k1 >= p1 {
        None
    } else {
        let k2 = find_char(s, k1 + 1, p1, ',');
        let (a0, a1) = trim_exec(s, p0, k1);
        let (b0, b1) = trim_exec(s, k1 + 1, k2);
        Some((Span { start: a0, end: a1 }, Span { start: b0, end: b1 }))
    }
}

/// The fields of the point written in `lo .. hi`, as `point_spec` reads them.
pub fn point_fields(s: &Vec<char>, lo: usize, hi: usize) -> (r: Option<PointFields>)
    requires
        lo <= hi <= s@.len(),
    ensures
        r == point_spec(s@, lo as int, hi as int),
{
    let c1 = find_char(s, lo, hi, ':');
    if c1 >= hi {
        return None;
    }
    let c2 = find_char(s, c1 + 1, hi, ':');
    let (t0, t1) = trim_exec(s, lo, c1);
    match pair_exec(s, c1 + 1, c2) {
        Some(xy) => Some(PointFields { t: Span { start: t0, end: t1 }, x: xy.0, y: xy.1 }),
        None => None,
    }
}

/// The fields of the coefficient line written in `lo .. hi`, as `coeff_spec`
/// reads them.
pub fn coeff_fields(s: &Vec<char>, lo: usize, hi: usize) -> (r: Option<CoeffFields>)
    requires
        lo <= hi <= s@.len(),
    ensures
        r == coeff_spec(s@, lo as int, hi as int),
{
    let pieces = runs_of(s, lo, hi, '&');
    if pieces.len() < 2 {
        return None;
    }
    proof {
        lemma_runs_bounded(s@, lo as int, hi as int, '&');
    }
    let p = pair_exec(s, pieces[0].start, pieces[0].end);
    let n = pair_exec(s, pieces[1].start, pieces[1].end);
    match (p, n) {
        (Some(p), Some(n)) => Some(CoeffFields { pos_re: p.0, pos_im: p.1, neg_re: n.0, neg_im: n.1 }),
        _ => None,
    }
}

proof fn lemma_find_bounded(s: Seq<char>, lo: int, hi: int, ch: char)
    requires
        lo <= hi,
    ensures
        lo <= find(s, lo, hi, ch) <= hi,
    decreases hi - lo,
{
    if lo < hi && s[lo] != ch {
        lemma_find_bounded(s, lo + 1, hi, ch);
    }
}

/// Every run lies inside `lo .. hi` and is not empty.
proof fn lemma_runs_bounded(s: Seq<char>, lo: int, hi: int, sep: char)
    requires
        0 <= lo <= hi <= s.len(),
        hi <= usize::MAX,
    ensures
        forall|k: int|
            0 <= k < runs(s, lo, hi, sep).len() ==> lo <= (#[trigger] runs(s, lo, hi, sep)[k]).start
                < runs(s, lo, hi, sep)[k].end <= hi,
    decreases hi - lo,
{
    if lo < hi {
        if s[lo] == sep {
            lemma_runs_bounded(s, lo + 1, hi, sep);
            assert(runs(s, lo, hi, sep) == runs(s, lo + 1, hi, sep));
        } else {
            let e = find(s, lo + 1, hi, sep);
            lemma_find_bounded(s, lo + 1, hi, sep);
            lemma_runs_bounded(s, e, hi, sep);
            let rest = runs(s, e, hi, sep);
            assert forall|k: int| 0 <= k < runs(s, lo, hi, sep).len() implies lo <= (
            #[trigger] runs(s, lo, hi, sep)[k]).start < runs(s, lo, hi, sep)[k].end <= hi by {
                if k > 0 {
                    assert(runs(s, lo, hi, sep)[k] == rest[k - 1]);
                }
            }
        }
    }
}


/// The lines of `s`: its maximal runs of characters other than a line feed,
/// so that empty lines are left out.
pub open spec fn lines(s: Seq<char>) -> Seq<Span> {
    runs(s, 0, s.len() as int, '\n')
}

/// The point written on line `k` of `s`.
pub open spec fn point_on_line(s: Seq<char>, k: int) -> Option<PointFields> {
    point_spec(s, lines(s)[k].start as int, lines(s)[k].end as int)
}

/// The coefficients written on line `k` of `s`.
pub open spec fn coeffs_on_line(s: Seq<char>, k: int) -> Option<CoeffFields> {
    coeff_spec(s, lines(s)[k].start as int, lines(s)[k].end as int)
}

/// Reads a points file, one point `t: (x, y)` per non-empty line: where
/// each number is written. Fewer than two lines give `NotEnoughPoints`; else
/// a line that is no point gives `IllFormedPoint`.
pub fn parse_points(s: &Vec<char>) -> (r: Result<Vec<PointFields>, ReadingError>)
    ensures
        lines(s@).len() < 2 ==> r matches Err(ReadingError::NotEnoughPoints),
        lines(s@).len() >= 2 && (exists|k: int|
            0 <= k < lines(s@).len() && #[trigger] point_on_line(s@, k) is None) ==> r matches Err(
            ReadingError::IllFormedPoint,
        ),
        lines(s@).len() >= 2 && (forall|k: int|
            0 <= k < lines(s@).len() ==> #[trigger] point_on_line(s@, k) is Some) ==> (r matches Ok(
            v,
        ) && v@.len() == lines(s@).len() && forall|k: int|
            0 <= k < v@.len() ==> Some(#[trigger] v@[k]) == point_on_line(s@, k)),
{
    let ls = runs_of(s, 0, s.len(), '\n');
    if ls.len() < 2 {
        return Err(ReadingError::NotEnoughPoints);
    }
    proof {
        lemma_runs_bounded(s@, 0, s@.len() as int, '\n');
    }
    let mut out: Vec<PointFields> = Vec::new();
    let mut k: usize = 0;
    while k < ls.len()
        invariant
            ls@ == lines(s@),
            ls@.len() >= 2,
            k <= ls@.len(),
            out@.len() == k,
            forall|j: int| 0 <= j < k ==> Some(#[trigger] out@[j]) == point_on_line(s@, j),
            forall|j: int|
                0 <= j < ls@.len() ==> 0 <= (#[trigger] ls@[j]).start < ls@[j].end <= s@.len(),
        decreases ls@.len() - k,
    {
        match point_fields(s, ls[k].start, ls[k].end) {
            Some(p) => {
                out.push(p);
            },
            None => {
                assert(point_on_line(s@, k as int) is None);
                return Err(ReadingError::IllFormedPoint);
            },
        }
        k = k + 1;
    }
    assert forall|j: int| 0 <= j < lines(s@).len() implies #[trigger] point_on_line(s@, j) is Some by {
        assert(Some(out@[j]) == point_on_line(s@, j));
    }
    Ok(out)
}

/// Reads a coefficients file, one line `(re, im) & (re, im)` per harmonic
/// from the zeroth: where each number is written. A line that is no such
/// pair of pairs gives `IllFormedCoeffs`.
pub fn parse_coeffs(s: &Vec<char>) -> (r: Result<Vec<CoeffFields>, ReadingError>)
    ensures
        (exists|k: int| 0 <= k < lines(s@).len() && #[trigger] coeffs_on_line(s@, k) is None)
            ==> r matches Err(ReadingError::IllFormedCoeffs),
        (forall|k: int| 0 <= k < lines(s@).len() ==> #[trigger] coeffs_on_line(s@, k) is Some)
            ==> (r matches Ok(v) && v@.len() == lines(s@).len() && forall|k: int|
            0 <= k < v@.len() ==> Some(#[trigger] v@[k]) == coeffs_on_line(s@, k)),
{
    let ls = runs_of(s, 0, s.len(), '\n');
    proof {
        lemma_runs_bounded(s@, 0, s@.len() as int, '\n');
    }
    let mut out: Vec<CoeffFields> = Vec::new();
    let mut k: usize = 0;
    while k < ls.len()
        invariant
            ls@ == lines(s@),
            k <= ls@.len(),
            out@.len() == k,
            forall|j: int| 0 <= j < k ==> Some(#[trigger] out@[j]) == coeffs_on_line(s@, j),
            forall|j: int|
                0 <= j < ls@.len() ==> 0 <= (#[trigger] ls@[j]).start < ls@[j].end <= s@.len(),
        decreases ls@.len() - k,
    {
        match coeff_fields(s, ls[k].start, ls[k].end) {
            Some(c) => {
                out.push(c);
            },
            None => {
                assert(coeffs_on_line(s@, k as int) is None);
                return Err(ReadingError::IllFormedCoeffs);
            },
        }
        k = k + 1;
    }
    assert forall|j: int| 0 <= j < lines(s@).len() implies #[trigger] coeffs_on_line(s@, j) is Some by {
        assert(Some(out@[j]) == coeffs_on_line(s@, j));
    }
    Ok(out)
}

} // verus!
