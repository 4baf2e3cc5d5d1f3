//! Turns recipe text into lines of metadata and steps.
use vstd::prelude::*;

use crate::ast::{
    items_view, lines_view, Cookware, Ingredient, ItemV, LineV, Metadata, RecipeLine, StepItem,
    Timer,
};
use crate::grammar::{
    all_digits, annot, content_items, digits_value, err_at, find, opt_seq, parse_from,
    parse_line, prepend, recipe_lines, scan, stop_at, trim_back, trimmed, ErrV, ParseErrorKind,
    Scan, Stop,
};

verus! {

/// A syntax error with its place in the text, both counted from 1.
#[derive(Clone, Copy, Debug, PartialEq, Eq)]
pub struct ParseError {
    pub line: usize,
    pub column: usize,
    pub kind: ParseErrorKind,
}

impl View for ParseError {
    type V = ErrV;

    open spec fn view(&self) -> ErrV {
        ErrV { kind: self.kind, line: self.line as int, column: self.column as int }
    }
}

pub(crate) fn is_stop(k: Stop, c: char) -> (r: bool)
    ensures
        r == stop_at(k, c),
{
    match k {
        Stop::Char(x) => c == x,
        Stop::Special => c == '{' || c == '@' || c == '#' || c == '~',
        Stop::WordEnd => c == ' ' || c == '\t' || c == '\r' || c == '@' || c == '#' || c == '~'
            || c == '{' || c == '}',
        Stop::NonSpace => !(c == ' ' || c == '\t' || c == '\r'),
        Stop::NonDigit => !('0' <= c && c <= '9'),
        Stop::ListSep => c == ',' || c == '|',
    }
}

pub(crate) fn find_exec(cs: &Vec<char>, k: Stop, i: usize, e: usize) -> (r: usize)
    requires
        i <= e <= cs@.len(),
    ensures
        i <= r <= e,
        r == find(cs@, k, i as int, e as int),
        forall|j: int| i <= j < r ==> !stop_at(k, #[trigger] cs@[j]),
{
    let mut j: usize = i;
    while j < e
        invariant
            i <= j <= e,
            e <= cs@.len(),
            forall|m: int| i <= m < j ==> !stop_at(k, #[trigger] cs@[m]),
            find(cs@, k, i as int, e as int) == find(cs@, k, j as int, e as int),
        decreases e - j,
    {
        if is_stop(k, cs[j]) {
            return j;
        }
        j = j + 1;
    }
    j
}

pub(crate) fn trim_back_exec(cs: &Vec<char>, a: usize, e: usize) -> (r: usize)
    requires
        a <= e <= cs@.len(),
    ensures
        a <= r <= e,
        r == trim_back(cs@, a as int, e as int),
{
    let mut j: usize = e;
    while j > a
        invariant
            a <= j <= e,
            e <= cs@.len(),
            trim_back(cs@, a as int, e as int) == trim_back(cs@, a as int, j as int),
        decreases j,
    {
        let c = cs[j - 1];
        if !(c == ' ' || c == '\t' || c == '\r') {
            return j;
        }
        j = j - 1;
    }
    j
}

/// The characters of `input` as a vector.
pub(crate) fn chars_of(input: &str) -> (r: Vec<char>)
    ensures
        r@ == input@,
{
    let mut v: Vec<char> = Vec::new();
    for c in it: input.chars()
        invariant
            it.seq() == input@,
            v@ == input@.take(it.index() as int),
    {
        v.push(c);
        assert(v@ =~= input@.take(it.index() + 1));
    }
    assert(v@ =~= input@);
    v
}

/// The text of `input` in `[a, b)`.
pub(crate) fn span(input: &str, a: usize, b: usize) -> (r: String)
    requires
        a <= b <= input@.len(),
    ensures
        r@ == input@.subrange(a as int, b as int),
{
    input.substring_char(a, b).to_owned()
}

/// The text of `[a, b)` without surrounding whitespace.
pub(crate) fn trimmed_exec(input: &str, cs: &Vec<char>, a: usize, b: usize) -> (r: String)
    requires
        cs@ == input@,
        a <= b <= cs@.len(),
    ensures
        r@ == trimmed(cs@, a as int, b as int),
{
    let ta = find_exec(cs, Stop::NonSpace, a, b);
    let tb = trim_back_exec(cs, ta, b);
    span(input, ta, tb)
}

proof fn lemma_items_push(v: Seq<StepItem>, x: StepItem)
    ensures
        items_view(v.push(x)) == items_view(v) + seq![x@],
{
    assert(items_view(v.push(x)) =~= items_view(v) + seq![x@]);
}

/// Appends the content item of `[a, b)`, if it is not all whitespace.
fn push_content(input: &str, cs: &Vec<char>, a: usize, b: usize, out: &mut Vec<StepItem>)
    requires
        cs@ == input@,
        a <= b <= cs@.len(),
    ensures
        items_view(final(out)@) == items_view(old(out)@) + content_items(cs@, a as int, b as int),
{
    let t = trimmed_exec(input, cs, a, b);
    if t.unicode_len() > 0 {
        proof {
            lemma_items_push(out@, StepItem::Content(t));
        }
        out.push(StepItem::Content(t));
    } else {
        assert(items_view(out@) + content_items(cs@, a as int, b as int) =~= items_view(out@));
    }
}

proof fn lemma_digits_mono(s: Seq<char>, a: int, i: int, b: int)
    requires
        a <= i <= b,
        all_digits(s, a, b),
    ensures
        digits_value(s, a, i) <= digits_value(s, a, b),
    decreases b - i,
{
    if i < b {
        lemma_digits_mono(s, a, i, b - 1);
        assert(crate::grammar::is_digit(s[b - 1]));
    }
}

/// The decimal value of `[a, b)`, when it is all digits and fits in `u64`.
pub(crate) fn digits_exec(cs: &Vec<char>, a: usize, b: usize) -> (r: Option<u64>)
    requires
        a <= b <= cs@.len(),
    ensures
        r is Some <==> all_digits(cs@, a as int, b as int) && digits_value(cs@, a as int, b as int)
            <= u64::MAX,
        r is Some ==> r->0 == digits_value(cs@, a as int, b as int),
{
    let mut v: u64 = 0;
    let mut i: usize = a;
    while i < b
        invariant
            a <= i <= b,
            b <= cs@.len(),
            all_digits(cs@, a as int, i as int),
            v == digits_value(cs@, a as int, i as int),
        decreases b - i,
    {
        let c = cs[i];
        if !('0' <= c && c <= '9') {
            return None;
        }
        let d = (c as u32 - '0' as u32) as u64;
        assert(digits_value(cs@, a as int, i + 1) == v * 10 + d);
        match v.checked_mul(10) {
            Some(m) => match m.checked_add(d) {
                Some(nv) => {
                    v = nv;
                },
                None => {
                    proof {
                        if all_digits(cs@, a as int, b as int) {
                            lemma_digits_mono(cs@, a as int, i + 1, b as int);
                        }
                    }
                    return None;
                },
            },
            None => {
                proof {
                    if all_digits(cs@, a as int, b as int) {
                        lemma_digits_mono(cs@, a as int, i + 1, b as int);
                    }
                }
                return None;
            },
        }
        i = i + 1;
    }
    Some(v)
}

/// What a marker turned out to be.
enum Found {
    Literal,
    Item(StepItem, usize),
    Fail(ParseError),
}

/// Reads the annotation whose marker is at `p`, in the line `[la, e)` with index `idx`.
fn annot_exec(input: &str, cs: &Vec<char>, p: usize, e: usize, idx: usize, la: usize) -> (r: Found)
    requires
        cs@ == input@,
        idx <= la <= p < e <= cs@.len(),
        crate::grammar::is_marker(cs@[p as int]),
    ensures
        match r {
            Found::Literal => annot(cs@, p as int, e as int, idx as int, la as int) is Literal,
            Found::Item(it, n) => annot(cs@, p as int, e as int, idx as int, la as int)
                == Scan::Item(it@, n as int) && p < n <= e,
            Found::Fail(er) => annot(cs@, p as int, e as int, idx as int, la as int) == Scan::Fail(
                er@,
            ),
        },
{
    let fail = |kind: ParseErrorKind| -> (r: ParseError)
        ensures
            r@ == err_at(kind, idx as int, la as int, p as int),
        { ParseError { line: idx + 1, column: p - la + 1, kind } };
    if cs[p] == '~' {
        if p + 1 < e && cs[p + 1] == '{' {
            let k = find_exec(cs, Stop::Char('}'), p + 2, e);
            if k >= e {
                return Found::Fail(fail(ParseErrorKind::Unterminated));
            }
            let pc = find_exec(cs, Stop::Char('%'), p + 2, k);
            if pc >= k || pc == p + 2 {
                return Found::Fail(fail(ParseErrorKind::BadTimer));
            }
            match digits_exec(cs, p + 2, pc) {
                None => Found::Fail(fail(ParseErrorKind::BadTimer)),
                Some(d) => Found::Item(
                    StepItem::Timer(Timer { duration: d, unit: span(input, pc + 1, k) }),
                    k + 1,
                ),
            }
        } else {
            Found::Literal
        }
    } else {
        let j = find_exec(cs, Stop::Special, p + 1, e);
        if j < e && cs[j] == '{' && j > p + 1 && !(cs[p + 1] == ' ' || cs[p + 1] == '\t' || cs[p
            + 1] == '\r') {
            let k = find_exec(cs, Stop::Char('}'), j + 1, e);
            if k >= e {
                Found::Fail(fail(ParseErrorKind::Unterminated))
            } else if cs[p] == '#' && k != j + 1 {
                Found::Fail(fail(ParseErrorKind::CookwareAmount))
            } else if cs[p] == '@' {
                Found::Item(
                    StepItem::Ingredient(
                        Ingredient { name: span(input, p + 1, j), amount: span(input, j + 1, k) },
                    ),
                    k + 1,
                )
            } else {
                Found::Item(StepItem::Cookware(Cookware { name: span(input, p + 1, j) }), k + 1)
            }
        } else {
            let w = find_exec(cs, Stop::WordEnd, p + 1, e);
            if w <= p + 1 {
                Found::Literal
            } else if cs[p] == '@' {
                let amount = String::new();
                assert(amount@ =~= seq![]);
                Found::Item(
                    StepItem::Ingredient(Ingredient { name: span(input, p + 1, w), amount }),
                    w,
                )
            } else {
                Found::Item(StepItem::Cookware(Cookware { name: span(input, p + 1, w) }), w)
            }
        }
    }
}

/// The items of the step text `[ta, tb)` of the line `[la, ..)` with index `idx`.
fn scan_exec(input: &str, cs: &Vec<char>, ta: usize, tb: usize, idx: usize, la: usize) -> (r:
    Result<Vec<StepItem>, ParseError>)
    requires
        cs@ == input@,
        idx <= la <= ta <= tb <= cs@.len(),
    ensures
        match r {
            Ok(v) => scan(cs@, ta as int, ta as int, tb as int, idx as int, la as int) == Ok::<
                Seq<ItemV>,
                ErrV,
            >(items_view(v@)),
            Err(er) => scan(cs@, ta as int, ta as int, tb as int, idx as int, la as int) == Err::<
                Seq<ItemV>,
                ErrV,
            >(er@),
        },
{
    let ghost s = cs@;
    let mut out: Vec<StepItem> = Vec::new();
    let mut start: usize = ta;
    let mut p: usize = ta;
    assert(items_view(out@) =~= seq![]);
    while p < tb
        invariant
            cs@ == input@,
            s == cs@,
            idx <= la <= ta <= start <= p <= tb <= cs@.len(),
            scan(s, ta as int, ta as int, tb as int, idx as int, la as int) == prepend(
                items_view(out@),
                scan(s, start as int, p as int, tb as int, idx as int, la as int),
            ),
        decreases tb - p,
    {
        let c = cs[p];
        if c == '@' || c == '#' || c == '~' {
            match annot_exec(input, cs, p, tb, idx, la) {
                Found::Fail(er) => {
                    return Err(er);
                },
                Found::Literal => {
                    p = p + 1;
                },
                Found::Item(it, n) => {
                    let ghost before = items_view(out@);
                    let ghost rest = scan(s, n as int, n as int, tb as int, idx as int, la as int);
                    push_content(input, cs, start, p, &mut out);
                    proof {
                        lemma_items_push(out@, it);
                    }
                    out.push(it);
                    proof {
                        let mid = content_items(s, start as int, p as int) + seq![it@];
                        assert(items_view(out@) == before + mid);
                        match rest {
                            Ok(t) => {
                                assert(before + (mid + t) =~= (before + mid) + t);
                            },
                            Err(_) => {},
                        }
                    }
                    start = n;
                    p = n;
                },
            }
        } else {
            p = p + 1;
        }
    }
    push_content(input, cs, start, tb, &mut out);
    Ok(out)
}

/// Reads the line `[a, b)` with index `idx`.
fn line_exec(input: &str, cs: &Vec<char>, a: usize, b: usize, idx: usize) -> (r: Result<
    Option<RecipeLine>,
    ParseError,
>)
    requires
        cs@ == input@,
        idx <= a <= b <= cs@.len(),
    ensures
        match r {
            Ok(None) => parse_line(cs@, a as int, b as int, idx as int) == Ok::<
                Option<LineV>,
                ErrV,
            >(None),
            Ok(Some(l)) => parse_line(cs@, a as int, b as int, idx as int) == Ok::<
                Option<LineV>,
                ErrV,
            >(Some(l@)),
            Err(er) => parse_line(cs@, a as int, b as int, idx as int) == Err::<
                Option<LineV>,
                ErrV,
            >(er@),
        },
{
    let ta = find_exec(cs, Stop::NonSpace, a, b);
    let tb = trim_back_exec(cs, ta, b);
    if ta >= tb {
        Ok(None)
    } else if cs[ta] == '>' && ta + 1 < tb && cs[ta + 1] == '>' {
        let c = find_exec(cs, Stop::Char(':'), ta + 2, tb);
        if c >= tb {
            Err(ParseError { line: idx + 1, column: ta - a + 1, kind: ParseErrorKind::MissingColon })
        } else {
            let key = trimmed_exec(input, cs, ta + 2, c);
            let value = trimmed_exec(input, cs, c + 1, tb);
            Ok(Some(RecipeLine::Metadata(Metadata { key, value })))
        }
    } else {
        match scan_exec(input, cs, ta, tb, idx, a) {
            Ok(items) => Ok(Some(RecipeLine::Step(items))),
            Err(er) => Err(er),
        }
    }
}

proof fn lemma_lines_push(v: Seq<RecipeLine>, x: RecipeLine)
    ensures
        lines_view(v.push(x)) == lines_view(v) + seq![x@],
{
    assert(lines_view(v.push(x)) =~= lines_view(v) + seq![x@]);
}

/// Splits a recipe text into its non-blank lines, each a metadata pair or a
/// step; fails with the first syntax error.
pub fn parse(input: &str) -> (r: Result<Vec<RecipeLine>, ParseError>)
    ensures
        match r {
            Ok(v) => recipe_lines(input@) == Ok::<Seq<LineV>, ErrV>(lines_view(v@)),
            Err(er) => recipe_lines(input@) == Err::<Seq<LineV>, ErrV>(er@),
        },
{
    let cs = chars_of(input);
    let ghost s = cs@;
    let n = cs.len();
    let mut out: Vec<RecipeLine> = Vec::new();
    let mut i: usize = 0;
    let mut idx: usize = 0;
    assert(lines_view(out@) =~= seq![]);
    loop
        invariant
            cs@ == input@,
            s == cs@,
            n == cs@.len(),
            idx <= i <= n,
            recipe_lines(s) == prepend(lines_view(out@), parse_from(s, i as int, idx as int)),
        decreases n - i,
    {
        let e = find_exec(&cs, Stop::Char('\n'), i, n);
        let ghost before = lines_view(out@);
        let ghost rest = parse_from(s, e + 1, idx + 1);
        match line_exec(input, &cs, i, e, idx) {
            Err(er) => {
                return Err(er);
            },
            Ok(l) => {
                let ghost lv = match &l {
                    Some(x) => Some(x@),
                    None => None,
                };
                match l {
                    Some(x) => {
                        proof {
                            lemma_lines_push(out@, x);
                        }
                        out.push(x);
                    },
                    None => {},
                }
                proof {
                    assert(lines_view(out@) =~= before + opt_seq(lv));
                    match rest {
                        Ok(t) => {
                            assert(before + (opt_seq(lv) + t) =~= (before + opt_seq(lv)) + t);
                        },
                        Err(_) => {},
                    }
                }
                if e >= n {
                    assert(parse_from(s, e + 1, idx + 1) == Ok::<Seq<LineV>, ErrV>(seq![]));
                    assert(lines_view(out@) + seq![] =~= lines_view(out@));
                    return Ok(out);
                }
                i = e + 1;
                idx = idx + 1;
            },
        }
    }
}

} // verus!
