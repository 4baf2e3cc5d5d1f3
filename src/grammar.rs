//! The markup grammar as spec functions over the characters of a recipe.
//!
//! Positions are indices into the whole text; `[a, b)` ranges delimit lines
//! and spans inside them.
use vstd::prelude::*;

use crate::ast::{ItemV, LineV};

verus! {

/// Whitespace inside a line.
pub open spec fn is_ws(c: char) -> bool {
    c == ' ' || c == '\t' || c == '\r'
}

/// The characters that open an ingredient, a cookware or a timer.
pub open spec fn is_marker(c: char) -> bool {
    c == '@' || c == '#' || c == '~'
}

pub open spec fn is_digit(c: char) -> bool {
    '0' <= c && c <= '9'
}

/// The classes of characters that a forward search stops at.
#[derive(Clone, Copy)]
pub enum Stop {
    /// One given character.
    Char(char),
    /// An opening brace or a marker: what ends the name of a long form.
    Special,
    /// Whitespace, a marker or a brace: what ends the name of a short form.
    WordEnd,
    /// Anything but whitespace.
    NonSpace,
    /// Anything but a decimal digit.
    NonDigit,
    /// A separator of a list of numbers.
    ListSep,
}

pub open spec fn stop_at(k: Stop, c: char) -> bool {
    match k {
        Stop::Char(x) => c == x,
        Stop::Special => c == '{' || is_marker(c),
        Stop::WordEnd => is_ws(c) || is_marker(c) || c == '{' || c == '}',
        Stop::NonSpace => !is_ws(c),
        Stop::NonDigit => !is_digit(c),
        Stop::ListSep => c == ',' || c == '|',
    }
}

/// The first index in `[i, e)` whose character is a stop of class `k`, or `e`.
pub open spec fn find(s: Seq<char>, k: Stop, i: int, e: int) -> int
    decreases e - i,
{
    if i >= e {
        e
    } else if stop_at(k, s[i]) {
        i
    } else {
        find(s, k, i + 1, e)
    }
}

/// The end of `[a, e)` once trailing whitespace is dropped.
pub open spec fn trim_back(s: Seq<char>, a: int, e: int) -> int
    decreases e - a,
{
    if e <= a {
        a
    } else if is_ws(s[e - 1]) {
        trim_back(s, a, e - 1)
    } else {
        e
    }
}

/// The characters of `[a, b)` without surrounding whitespace.
pub open spec fn trimmed(s: Seq<char>, a: int, b: int) -> Seq<char> {
    let ta = find(s, Stop::NonSpace, a, b);
    s.subrange(ta, trim_back(s, ta, b))
}

/// The content item that `[a, b)` gives: none when it is all whitespace.
pub open spec fn content_items(s: Seq<char>, a: int, b: int) -> Seq<ItemV> {
    let t = trimmed(s, a, b);
    if t.len() == 0 {
        seq![]
    } else {
        seq![ItemV::Content(t)]
    }
}

pub open spec fn all_digits(s: Seq<char>, a: int, b: int) -> bool {
    forall|k: int| a <= k < b ==> is_digit(#[trigger] s[k])
}

/// The decimal value of the digits in `[a, b)`.
pub open spec fn digits_value(s: Seq<char>, a: int, b: int) -> nat
    decreases b - a,
{
    if b <= a {
        0
    } else {
        (digits_value(s, a, b - 1) * 10 + (s[b - 1] as u32 - '0' as u32)) as nat
    }
}

/// Kinds of syntax error.
#[derive(Clone, Copy, Debug, PartialEq, Eq)]
pub enum ParseErrorKind {
    /// A `>>` line without a `:` between key and value.
    MissingColon,
    /// A `{` without a `}` before the end of the line.
    Unterminated,
    /// A cookware block `{...}` that is not empty.
    CookwareAmount,
    /// A timer block that is not `{digits%unit}`, or whose duration exceeds `u64`.
    BadTimer,
}

/// A syntax error: the kind, the line (from 1) and the column (from 1).
pub struct ErrV {
    pub kind: ParseErrorKind,
    pub line: int,
    pub column: int,
}

pub open spec fn err_at(kind: ParseErrorKind, idx: int, la: int, p: int) -> ErrV {
    ErrV { kind, line: idx + 1, column: p - la + 1 }
}

/// What a marker at some position amounts to.
pub enum Scan {
    /// Not an annotation: the marker is plain text.
    Literal,
    /// An item, and the position after it.
    Item(ItemV, int),
    Fail(ErrV),
}

/// The annotation at `p` (a marker) in a line `[la, e)` whose index is `idx`.
pub open spec fn annot(s: Seq<char>, p: int, e: int, idx: int, la: int) -> Scan {
    if s[p] == '~' {
        if p + 1 < e && s[p + 1] == '{' {
            let k = find(s, Stop::Char('}'), p + 2, e);
            if k >= e {
                Scan::Fail(err_at(ParseErrorKind::Unterminated, idx, la, p))
            } else {
                let pc = find(s, Stop::Char('%'), p + 2, k);
                if pc >= k || pc == p + 2 || !all_digits(s, p + 2, pc) || digits_value(s, p + 2, pc)
                    > u64::MAX {
                    Scan::Fail(err_at(ParseErrorKind::BadTimer, idx, la, p))
                } else {
                    Scan::Item(
                        ItemV::Timer(digits_value(s, p + 2, pc) as u64, s.subrange(pc + 1, k)),
                        k + 1,
                    )
                }
            }
        } else {
            Scan::Literal
        }
    } else {
        let j = find(s, Stop::Special, p + 1, e);
        if j < e && s[j] == '{' && j > p + 1 && !is_ws(s[p + 1]) {
            let k = find(s, Stop::Char('}'), j + 1, e);
            if k >= e {
                Scan::Fail(err_at(ParseErrorKind::Unterminated, idx, la, p))
            } else if s[p] == '#' && k != j + 1 {
                Scan::Fail(err_at(ParseErrorKind::CookwareAmount, idx, la, p))
            } else if s[p] == '@' {
                Scan::Item(ItemV::Ingredient(s.subrange(p + 1, j), s.subrange(j + 1, k)), k + 1)
            } else {
                Scan::Item(ItemV::Cookware(s.subrange(p + 1, j)), k + 1)
            }
        } else {
            let w = find(s, Stop::WordEnd, p + 1, e);
            if w <= p + 1 {
                Scan::Literal
            } else if s[p] == '@' {
                Scan::Item(ItemV::Ingredient(s.subrange(p + 1, w), seq![]), w)
            } else {
                Scan::Item(ItemV::Cookware(s.subrange(p + 1, w)), w)
            }
        }
    }
}

pub open spec fn prepend<T, E>(xs: Seq<T>, r: Result<Seq<T>, E>) -> Result<Seq<T>, E> {
    match r {
        Ok(t) => Ok(xs + t),
        Err(er) => Err(er),
    }
}

/// The items of the step text `[p, e)`, where content pending since `cs`
/// has not been emitted yet.
pub open spec fn scan(s: Seq<char>, cs: int, p: int, e: int, idx: int, la: int) -> Result<
    Seq<ItemV>,
    ErrV,
>
    decreases e - p,
{
    if p >= e {
        Ok(content_items(s, cs, e))
    } else if is_marker(s[p]) {
        match annot(s, p, e, idx, la) {
            Scan::Fail(er) => Err(er),
            Scan::Literal => scan(s, cs, p + 1, e, idx, la),
            Scan::Item(it, n) => if p < n <= e {
                prepend(content_items(s, cs, p) + seq![it], scan(s, n, n, e, idx, la))
            } else {
                // an item always ends after its marker
                Ok(seq![])
            },
        }
    } else {
        scan(s, cs, p + 1, e, idx, la)
    }
}

/// The line `[a, b)` with index `idx`: nothing when it is blank, a metadata
/// pair when it starts with `>>`, a step otherwise.
pub open spec fn parse_line(s: Seq<char>, a: int, b: int, idx: int) -> Result<Option<LineV>, ErrV> {
    let ta = find(s, Stop::NonSpace, a, b);
    let tb = trim_back(s, ta, b);
    if ta >= tb {
        Ok(None)
    } else if s[ta] == '>' && ta + 1 < tb && s[ta + 1] == '>' {
        let c = find(s, Stop::Char(':'), ta + 2, tb);
        if c >= tb {
            Err(err_at(ParseErrorKind::MissingColon, idx, a, ta))
        } else {
            Ok(Some(LineV::Metadata(trimmed(s, ta + 2, c), trimmed(s, c + 1, tb))))
        }
    } else {
        match scan(s, ta, ta, tb, idx, a) {
            Ok(items) => Ok(Some(LineV::Step(items))),
            Err(er) => Err(er),
        }
    }
}

pub open spec fn opt_seq<T>(o: Option<T>) -> Seq<T> {
    match o {
        Some(x) => seq![x],
        None => seq![],
    }
}

/// The lines of the text from position `i`, the first of them with index `idx`.
pub open spec fn parse_from(s: Seq<char>, i: int, idx: int) -> Result<Seq<LineV>, ErrV>
    decreases s.len() + 1 - i,
{
    if i > s.len() || i < 0 {
        Ok(seq![])
    } else {
        let e = find(s, Stop::Char('\n'), i, s.len() as int);
        match parse_line(s, i, e, idx) {
            Err(er) => Err(er),
            Ok(l) => if i <= e <= s.len() {
                prepend(opt_seq(l), parse_from(s, e + 1, idx + 1))
            } else {
                // a line never ends before it starts
                Ok(seq![])
            },
        }
    }
}

/// The lines of a whole recipe text.
pub open spec fn recipe_lines(s: Seq<char>) -> Result<Seq<LineV>, ErrV> {
    parse_from(s, 0, 0)
}

proof fn lemma_find_bounds(s: Seq<char>, k: Stop, i: int, e: int)
    requires
        i <= e,
    ensures
        i <= find(s, k, i, e) <= e,
        forall|j: int| i <= j < find(s, k, i, e) ==> !stop_at(k, #[trigger] s[j]),
        find(s, k, i, e) < e ==> stop_at(k, s[find(s, k, i, e)]),
    decreases e - i,
{
    if i < e && !stop_at(k, s[i]) {
        lemma_find_bounds(s, k, i + 1, e);
    }
}

proof fn lemma_find_none(s: Seq<char>, k: Stop, i: int, e: int)
    requires
        i <= e,
        forall|j: int| i <= j < e ==> !stop_at(k, #[trigger] s[j]),
    ensures
        find(s, k, i, e) == e,
    decreases e - i,
{
    if i < e {
        lemma_find_none(s, k, i + 1, e);
    }
}

/// Every character is whitespace or a line break.
pub open spec fn is_blank(s: Seq<char>) -> bool {
    forall|i: int| 0 <= i < s.len() ==> is_ws(#[trigger] s[i]) || s[i] == '\n'
}

proof fn lemma_blank_from(s: Seq<char>, i: int, idx: int)
    requires
        is_blank(s),
        0 <= i,
    ensures
        parse_from(s, i, idx) == Ok::<Seq<LineV>, ErrV>(seq![]),
    decreases s.len() + 1 - i,
{
    if i <= s.len() {
        let e = find(s, Stop::Char('\n'), i, s.len() as int);
        lemma_find_bounds(s, Stop::Char('\n'), i, s.len() as int);
        assert forall|j: int| i <= j < e implies !stop_at(Stop::NonSpace, #[trigger] s[j]) by {
            assert(!stop_at(Stop::Char('\n'), s[j]));
        }
        lemma_find_none(s, Stop::NonSpace, i, e);
        lemma_blank_from(s, e + 1, idx + 1);
        assert(seq![] + seq![] =~= Seq::<LineV>::empty());
    }
}

/// A text of only whitespace and blank lines has no lines at all.
pub proof fn lemma_blank_input(s: Seq<char>)
    requires
        is_blank(s),
    ensures
        recipe_lines(s) == Ok::<Seq<LineV>, ErrV>(seq![]),
{
    lemma_blank_from(s, 0, 0);
}

proof fn lemma_trim_back_bounds(s: Seq<char>, a: int, e: int)
    requires
        a <= e,
    ensures
        a <= trim_back(s, a, e) <= e,
        trim_back(s, a, e) > a ==> !is_ws(s[trim_back(s, a, e) - 1]),
    decreases e - a,
{
    if e > a && is_ws(s[e - 1]) {
        lemma_trim_back_bounds(s, a, e - 1);
    }
}

/// The non-blank lines of the text from position `i`, each without its
/// surrounding whitespace.
pub open spec fn text_lines(s: Seq<char>, i: int) -> Seq<Seq<char>>
    decreases s.len() + 1 - i,
{
    if i > s.len() || i < 0 {
        seq![]
    } else {
        let e = find(s, Stop::Char('\n'), i, s.len() as int);
        let t = trimmed(s, i, e);
        let rest = if i <= e <= s.len() {
            text_lines(s, e + 1)
        } else {
            seq![]
        };
        if t.len() == 0 {
            rest
        } else {
            seq![t] + rest
        }
    }
}

/// The line, once trimmed, is a metadata line.
pub open spec fn is_metadata_text(t: Seq<char>) -> bool {
    t.len() >= 2 && t[0] == '>' && t[1] == '>'
}

/// Every marker of the step text `[a, e)` is plain text.
pub open spec fn span_has_no_annotation(s: Seq<char>, a: int, e: int) -> bool {
    forall|p: int| a <= p < e && is_marker(s[p]) ==> (#[trigger] annot(s, p, e, 0, 0)) is Literal
}

/// No line from position `i` on holds an annotation.
pub open spec fn has_no_annotation(s: Seq<char>, i: int) -> bool
    decreases s.len() + 1 - i,
{
    if i > s.len() || i < 0 {
        true
    } else {
        let e = find(s, Stop::Char('\n'), i, s.len() as int);
        let ta = find(s, Stop::NonSpace, i, e);
        &&& span_has_no_annotation(s, ta, trim_back(s, ta, e))
        &&& (i <= e <= s.len() ==> has_no_annotation(s, e + 1))
    }
}

pub open spec fn has_no_metadata(ts: Seq<Seq<char>>) -> bool {
    forall|j: int| 0 <= j < ts.len() ==> !is_metadata_text(#[trigger] ts[j])
}

/// Each line as a step of one content item.
pub open spec fn plain_steps(ts: Seq<Seq<char>>) -> Seq<LineV> {
    ts.map_values(|t: Seq<char>| LineV::Step(seq![ItemV::Content(t)]))
}

proof fn lemma_scan_plain(s: Seq<char>, a: int, cs: int, p: int, e: int, idx: int, la: int)
    requires
        span_has_no_annotation(s, a, e),
        a <= p,
        e <= s.len(),
    ensures
        scan(s, cs, p, e, idx, la) == Ok::<Seq<ItemV>, ErrV>(content_items(s, cs, e)),
    decreases e - p,
{
    if p < e {
        if is_marker(s[p]) {
            assert(annot(s, p, e, 0, 0) is Literal);
        }
        lemma_scan_plain(s, a, cs, p + 1, e, idx, la);
    }
}

proof fn lemma_plain_from(s: Seq<char>, i: int, idx: int)
    requires
        has_no_annotation(s, i),
        has_no_metadata(text_lines(s, i)),
        0 <= i,
    ensures
        parse_from(s, i, idx) == Ok::<Seq<LineV>, ErrV>(plain_steps(text_lines(s, i))),
    decreases s.len() + 1 - i,
{
    if i <= s.len() {
        let n = s.len() as int;
        let e = find(s, Stop::Char('\n'), i, n);
        lemma_find_bounds(s, Stop::Char('\n'), i, n);
        let ta = find(s, Stop::NonSpace, i, e);
        lemma_find_bounds(s, Stop::NonSpace, i, e);
        let tb = trim_back(s, ta, e);
        lemma_trim_back_bounds(s, ta, e);
        let t = trimmed(s, i, e);
        let rest = text_lines(s, e + 1);
        if t.len() == 0 {
            assert(has_no_metadata(rest));
            lemma_plain_from(s, e + 1, idx + 1);
            assert(parse_line(s, i, e, idx) == Ok::<Option<LineV>, ErrV>(None));
            assert(seq![] + plain_steps(rest) =~= plain_steps(rest));
        } else {
            assert(text_lines(s, i) == seq![t] + rest);
            assert(text_lines(s, i)[0] == t);
            assert(!is_metadata_text(t));
            assert forall|j: int| 0 <= j < rest.len() implies !is_metadata_text(#[trigger] rest[j]) by {
                assert(text_lines(s, i)[j + 1] == rest[j]);
            }
            lemma_plain_from(s, e + 1, idx + 1);
            lemma_scan_plain(s, ta, ta, ta, tb, idx, i);
            assert(find(s, Stop::NonSpace, ta, tb) == ta);
            assert(trim_back(s, ta, tb) == tb);
            assert(content_items(s, ta, tb) == seq![ItemV::Content(t)]);
            assert(t[0] == s[ta]);
            assert(ta + 1 < tb ==> t[1] == s[ta + 1]);
            assert(parse_line(s, i, e, idx) == Ok::<Option<LineV>, ErrV>(
                Some(LineV::Step(seq![ItemV::Content(t)])),
            ));
            assert(plain_steps(text_lines(s, i)) =~= seq![LineV::Step(seq![ItemV::Content(t)])]
                + plain_steps(rest));
        }
    } else {
        assert(plain_steps(text_lines(s, i)) =~= seq![]);
    }
}

/// A text without annotations or metadata lines reads as one step per
/// non-blank line, each a single content item: the trimmed line.
pub proof fn lemma_plain_text_lines(s: Seq<char>)
    requires
        has_no_annotation(s, 0),
        has_no_metadata(text_lines(s, 0)),
    ensures
        recipe_lines(s) == Ok::<Seq<LineV>, ErrV>(plain_steps(text_lines(s, 0))),
{
    lemma_plain_from(s, 0, 0);
}

} // verus!
