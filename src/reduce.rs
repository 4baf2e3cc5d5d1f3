//! Reduces parsed lines into a [`Recipe`]: one instruction text with a marker
//! per mention, an ingredient registry keyed by name, and the metadata.
use vstd::prelude::*;

use crate::ast::{items_view, lines_view, ItemV, LineV, RecipeLine, StepItem};
use crate::grammar::{all_digits, digits_value, find, trim_back, Stop};
use crate::ir::{
    add_result, keys_unique, names_view, opt_amount, opt_text, put_entry, registry_view,
    specifiers_view, timers_view, Amount, AmountError, AmountV, Ingredient, IngredientSpecifier,
    IngredientV, Metadata, MetadataV, Recipe, RecipeV, SpecifierV, Timer,
};
use crate::grammar::{
    has_no_annotation, has_no_metadata, lemma_plain_text_lines, plain_steps, recipe_lines,
    text_lines, ErrV,
};
use crate::parser::{chars_of, digits_exec, find_exec, parse, span, trim_back_exec, ParseError};

verus! {

/// Kinds of error met while reducing.
#[derive(Clone, Copy, Debug, PartialEq, Eq)]
pub enum ReduceErrorKind {
    /// Two amounts of one ingredient cannot be added.
    Merge(AmountError),
    /// Two mentions of one ingredient name different units.
    UnitMismatch,
    /// An amount that is neither empty nor a number.
    BadAmount,
    /// A servings entry that is not a list of numbers.
    BadServings,
}

/// A reduction error: its kind, and the ingredient name or metadata key at fault.
pub struct ReduceErrV {
    pub kind: ReduceErrorKind,
    pub name: Seq<char>,
}

/// Reads a raw amount: empty text gives no amount; otherwise a number,
/// `*` before it for a per-serving factor, then an optional unit, which may
/// be set off by `%`. `None` when the text is not of that shape.
pub open spec fn amount_of(t: Seq<char>) -> Option<(Option<AmountV>, Option<Seq<char>>)> {
    let n = t.len() as int;
    let a0 = find(t, Stop::NonSpace, 0, n);
    let b0 = trim_back(t, a0, n);
    if a0 >= b0 {
        Some((None, None))
    } else {
        let m = if t[a0] == '*' {
            a0 + 1
        } else {
            a0
        };
        let q = find(t, Stop::NonDigit, m, b0);
        if q <= m || digits_value(t, m, q) > u64::MAX {
            None
        } else {
            let v = digits_value(t, m, q);
            let ua = find(t, Stop::NonSpace, q, b0);
            let ub = if ua < b0 && t[ua] == '%' {
                find(t, Stop::NonSpace, ua + 1, b0)
            } else {
                ua
            };
            let unit = if ub < b0 {
                Some(t.subrange(ub, b0))
            } else {
                None
            };
            let amount = if t[a0] == '*' {
                AmountV::Multi(v)
            } else {
                AmountV::Single(v)
            };
            Some((Some(amount), unit))
        }
    }
}

/// The numbers of `[a, e)`, separated by `,` or `|`, each with optional
/// surrounding whitespace.
pub open spec fn num_list(t: Seq<char>, a: int, e: int) -> Option<Seq<u64>>
    decreases e - a,
{
    let c = find(t, Stop::ListSep, a, e);
    let pa = find(t, Stop::NonSpace, a, c);
    let pb = trim_back(t, pa, c);
    if pb <= pa || !all_digits(t, pa, pb) || digits_value(t, pa, pb) > u64::MAX {
        None
    } else if c >= e || c < a {
        Some(seq![digits_value(t, pa, pb) as u64])
    } else {
        match num_list(t, c + 1, e) {
            Some(r) => Some(seq![digits_value(t, pa, pb) as u64] + r),
            None => None,
        }
    }
}

/// `c` with the capitals of the word `servings` lowered.
pub open spec fn fold_case(c: char) -> char {
    if c == 'S' {
        's'
    } else if c == 'E' {
        'e'
    } else if c == 'R' {
        'r'
    } else if c == 'V' {
        'v'
    } else if c == 'I' {
        'i'
    } else if c == 'N' {
        'n'
    } else if c == 'G' {
        'g'
    } else {
        c
    }
}

/// The key is `servings`, in any mix of cases.
pub open spec fn is_servings_key(k: Seq<char>) -> bool {
    k.map_values(|c: char| fold_case(c)) == seq!['s', 'e', 'r', 'v', 'i', 'n', 'g', 's']
}

/// The sum of two optional amounts, where a missing amount adds nothing.
pub open spec fn merge_opt(a: Option<AmountV>, b: Option<AmountV>) -> Result<Option<AmountV>, AmountError> {
    match (a, b) {
        (None, x) => Ok(x),
        (x, None) => Ok(x),
        (Some(x), Some(y)) => match add_result(x, y) {
            Ok(m) => Ok(Some(m)),
            Err(e) => Err(e),
        },
    }
}

/// The unit of two mentions: `None` when both name one and they differ.
pub open spec fn unit_merge(a: Option<Seq<char>>, b: Option<Seq<char>>) -> Option<Option<Seq<char>>> {
    match (a, b) {
        (None, x) => Some(x),
        (x, None) => Some(x),
        (Some(x), Some(y)) => if x == y {
            Some(Some(x))
        } else {
            None
        },
    }
}

pub open spec fn names_unique(reg: Seq<IngredientV>) -> bool {
    forall|i: int, j: int| 0 <= i < j < reg.len() ==> reg[i].name != reg[j].name
}

pub open spec fn registry_has(reg: Seq<IngredientV>, name: Seq<char>) -> bool {
    exists|i: int| 0 <= i < reg.len() && reg[i].name == name
}

/// The registry after one mention of `name` with amount `a` and unit `u`:
/// a new entry for a new name, else the entry's amount and unit merged.
pub open spec fn upsert(
    reg: Seq<IngredientV>,
    name: Seq<char>,
    a: Option<AmountV>,
    u: Option<Seq<char>>,
) -> Result<Seq<IngredientV>, ReduceErrorKind> {
    if registry_has(reg, name) {
        let i = choose|i: int| 0 <= i < reg.len() && reg[i].name == name;
        match merge_opt(reg[i].amount, a) {
            Err(e) => Err(ReduceErrorKind::Merge(e)),
            Ok(m) => match unit_merge(reg[i].unit, u) {
                None => Err(ReduceErrorKind::UnitMismatch),
                Some(un) => Ok(reg.update(i, IngredientV { amount: m, unit: un, ..reg[i] })),
            },
        }
    } else {
        Ok(reg.push(IngredientV { name, id: reg.len(), amount: a, unit: u }))
    }
}

/// The reduction so far: the metadata, the instruction text, and whether a
/// step has been written.
pub struct StateV {
    pub meta: MetadataV,
    pub instruction: Seq<char>,
    pub stepped: bool,
}

pub open spec fn initial_state() -> StateV {
    StateV {
        meta: MetadataV {
            servings: None,
            ominous: seq![],
            ingredients: seq![],
            ingredients_specifiers: seq![],
            cookware: seq![],
            timer: seq![],
        },
        instruction: seq![],
        stepped: false,
    }
}

pub open spec fn apply_item(st: StateV, it: ItemV) -> Result<StateV, ReduceErrV> {
    match it {
        ItemV::Content(t) => Ok(StateV { instruction: st.instruction + t, ..st }),
        ItemV::Ingredient(n, raw) => match amount_of(raw) {
            None => Err(ReduceErrV { kind: ReduceErrorKind::BadAmount, name: n }),
            Some((a, u)) => match upsert(st.meta.ingredients, n, a, u) {
                Err(k) => Err(ReduceErrV { kind: k, name: n }),
                Ok(reg) => Ok(
                    StateV {
                        meta: MetadataV {
                            ingredients: reg,
                            ingredients_specifiers: st.meta.ingredients_specifiers.push(
                                SpecifierV { ingredient: n, amount_in_step: a },
                            ),
                            ..st.meta
                        },
                        instruction: st.instruction.push('@'),
                        ..st
                    },
                ),
            },
        },
        ItemV::Cookware(n) => Ok(
            StateV {
                meta: MetadataV { cookware: st.meta.cookware.push(n), ..st.meta },
                instruction: st.instruction.push('#'),
                ..st
            },
        ),
        ItemV::Timer(d, u) => Ok(
            StateV {
                meta: MetadataV { timer: st.meta.timer.push((d, u)), ..st.meta },
                instruction: st.instruction.push('~'),
                ..st
            },
        ),
    }
}

pub open spec fn items_from(st: StateV, items: Seq<ItemV>, j: int) -> Result<StateV, ReduceErrV>
    decreases items.len() - j,
{
    if j >= items.len() || j < 0 {
        Ok(st)
    } else {
        match apply_item(st, items[j]) {
            Ok(s2) => items_from(s2, items, j + 1),
            Err(e) => Err(e),
        }
    }
}

pub open spec fn apply_line(st: StateV, l: LineV) -> Result<StateV, ReduceErrV> {
    match l {
        LineV::Metadata(k, v) => if is_servings_key(k) {
            match num_list(v, 0, v.len() as int) {
                Some(tiers) => Ok(StateV { meta: MetadataV { servings: Some(tiers), ..st.meta }, ..st }),
                None => Err(ReduceErrV { kind: ReduceErrorKind::BadServings, name: k }),
            }
        } else {
            Ok(StateV { meta: MetadataV { ominous: put_entry(st.meta.ominous, k, v), ..st.meta }, ..st })
        },
        LineV::Step(items) => {
            let start = StateV {
                instruction: if st.stepped {
                    st.instruction.push('\n')
                } else {
                    st.instruction
                },
                stepped: true,
                ..st
            };
            items_from(start, items, 0)
        },
    }
}

pub open spec fn lines_from(st: StateV, lines: Seq<LineV>, i: int) -> Result<StateV, ReduceErrV>
    decreases lines.len() - i,
{
    if i >= lines.len() || i < 0 {
        Ok(st)
    } else {
        match apply_line(st, lines[i]) {
            Ok(s2) => lines_from(s2, lines, i + 1),
            Err(e) => Err(e),
        }
    }
}

/// The recipe that `lines`, read from `source`, reduce to.
pub open spec fn reduce_spec(source: Seq<char>, lines: Seq<LineV>) -> Result<RecipeV, ReduceErrV> {
    match lines_from(initial_state(), lines, 0) {
        Ok(st) => Ok(RecipeV { source, metadata: st.meta, instruction: st.instruction }),
        Err(e) => Err(e),
    }
}

/// Reads a raw amount as [`amount_of`] describes.
pub fn parse_amount(raw: &str) -> (r: Option<(Option<Amount>, Option<String>)>)
    ensures
        match r {
            None => amount_of(raw@) is None,
            Some((a, u)) => amount_of(raw@) == Some((opt_amount(a), opt_text(u))),
        },
{
    let t = chars_of(raw);
    let n = t.len();
    let a0 = find_exec(&t, Stop::NonSpace, 0, n);
    let b0 = trim_back_exec(&t, a0, n);
    if a0 >= b0 {
        return Some((None, None));
    }
    let multi = t[a0] == '*';
    let m = if multi {
        a0 + 1
    } else {
        a0
    };
    let q = find_exec(&t, Stop::NonDigit, m, b0);
    if q <= m {
        return None;
    }
    assert(all_digits(t@, m as int, q as int));
    let v = match digits_exec(&t, m, q) {
        Some(v) => v,
        None => {
            return None;
        },
    };
    let ua = find_exec(&t, Stop::NonSpace, q, b0);
    let ub = if ua < b0 && t[ua] == '%' {
        find_exec(&t, Stop::NonSpace, ua + 1, b0)
    } else {
        ua
    };
    let unit = if ub < b0 {
        Some(span(raw, ub, b0))
    } else {
        None
    };
    let amount = if multi {
        Amount::Multi(v)
    } else {
        Amount::Single(v)
    };
    Some((Some(amount), unit))
}

/// Reads a list of serving tiers as [`num_list`] describes.
pub fn parse_servings(text: &str) -> (r: Option<Vec<u64>>)
    ensures
        match r {
            None => num_list(text@, 0, text@.len() as int) is None,
            Some(v) => num_list(text@, 0, text@.len() as int) == Some(v@),
        },
{
    let t = chars_of(text);
    let ghost s = t@;
    let e = t.len();
    let mut out: Vec<u64> = Vec::new();
    let mut a: usize = 0;
    loop
        invariant
            s == t@,
            s == text@,
            e == s.len(),
            a <= e,
            num_list(s, 0, e as int) == match num_list(s, a as int, e as int) {
                Some(r) => Some(out@ + r),
                None => None::<Seq<u64>>,
            },
        decreases e - a,
    {
        let c = find_exec(&t, Stop::ListSep, a, e);
        let pa = find_exec(&t, Stop::NonSpace, a, c);
        let pb = trim_back_exec(&t, pa, c);
        if pb <= pa {
            return None;
        }
        let v = match digits_exec(&t, pa, pb) {
            Some(v) => v,
            None => {
                return None;
            },
        };
        let ghost before = out@;
        out.push(v);
        if c >= e {
            assert(before + seq![v] =~= out@);
            return Some(out);
        }
        proof {
            match num_list(s, c + 1, e as int) {
                Some(r) => {
                    assert(before + (seq![v] + r) =~= out@ + r);
                },
                None => {},
            }
        }
        a = c + 1;
    }
}

/// Whether a metadata key is `servings`, in any mix of cases.
pub fn is_servings(key: &str) -> (r: bool)
    ensures
        r == is_servings_key(key@),
{
    let t = chars_of(key);
    let ghost word = seq!['s', 'e', 'r', 'v', 'i', 'n', 'g', 's'];
    if t.len() != 8 {
        proof {
            if is_servings_key(key@) {
                assert(key@.map_values(|c: char| fold_case(c)).len() == 8);
            }
        }
        return false;
    }
    let mut i: usize = 0;
    while i < 8
        invariant
            t@ == key@,
            t@.len() == 8,
            i <= 8,
            word == seq!['s', 'e', 'r', 'v', 'i', 'n', 'g', 's'],
            forall|j: int| 0 <= j < i ==> fold_case(#[trigger] t@[j]) == word[j],
        decreases 8 - i,
    {
        let c = t[i];
        let f = if c == 'S' {
            's'
        } else if c == 'E' {
            'e'
        } else if c == 'R' {
            'r'
        } else if c == 'V' {
            'v'
        } else if c == 'I' {
            'i'
        } else if c == 'N' {
            'n'
        } else if c == 'G' {
            'g'
        } else {
            c
        };
        let w = if i == 0 {
            's'
        } else if i == 1 {
            'e'
        } else if i == 2 {
            'r'
        } else if i == 3 {
            'v'
        } else if i == 4 {
            'i'
        } else if i == 5 {
            'n'
        } else if i == 6 {
            'g'
        } else {
            's'
        };
        assert(w == word[i as int]);
        if f != w {
            proof {
                if is_servings_key(key@) {
                    assert(key@.map_values(|c: char| fold_case(c))[i as int] == word[i as int]);
                }
            }
            return false;
        }
        i = i + 1;
    }
    assert(key@.map_values(|c: char| fold_case(c)) =~= word);
    true
}

/// A copy of an optional amount.
fn copy_amount(a: &Option<Amount>) -> (r: Option<Amount>)
    ensures
        opt_amount(r) == opt_amount(*a),
{
    match a {
        Some(x) => Some(x.copied()),
        None => None,
    }
}

/// Records one mention of `name` in the registry, as [`upsert`] describes.
fn upsert_exec(
    reg: &mut Vec<Ingredient>,
    name: &String,
    a: Option<Amount>,
    u: Option<String>,
) -> (r: Result<(), ReduceErrorKind>)
    requires
        names_unique(registry_view(old(reg)@)),
    ensures
        match upsert(registry_view(old(reg)@), name@, opt_amount(a), opt_text(u)) {
            Ok(r2) => r is Ok && registry_view(final(reg)@) == r2,
            Err(k) => r == Err::<(), ReduceErrorKind>(k),
        },
        r is Ok ==> names_unique(registry_view(final(reg)@)),
{
    let ghost g = registry_view(reg@);
    let mut i: usize = 0;
    let mut found: bool = false;
    while i < reg.len()
        invariant
            i <= reg@.len(),
            g == registry_view(reg@),
            found ==> i < g.len() && g[i as int].name == name@,
            !found ==> forall|j: int| 0 <= j < i ==> g[j].name != name@,
        ensures
            g == registry_view(reg@),
            found ==> i < g.len() && g[i as int].name == name@,
            !found ==> forall|j: int| 0 <= j < g.len() ==> g[j].name != name@,
        decreases reg@.len() - i,
    {
        if reg[i].name == *name {
            found = true;
            break;
        }
        i = i + 1;
    }
    if !found {
        let entry = Ingredient { name: name.clone(), id: reg.len(), amount: a, unit: u };
        reg.push(entry);
        assert(registry_view(reg@) =~= g.push(entry@));
        return Ok(());
    }
    assert(forall|j: int| 0 <= j < g.len() && g[j].name == name@ ==> j == i);
    let cur = copy_amount(&reg[i].amount);
    let merged: Option<Amount> = match (cur, a) {
        (None, x) => x,
        (Some(x), None) => Some(x),
        (Some(x), Some(y)) => match x.add(y) {
            Ok(m) => Some(m),
            Err(e) => {
                return Err(ReduceErrorKind::Merge(e));
            },
        },
    };
    let unit: Option<String> = match (&reg[i].unit, u) {
        (None, x) => x,
        (Some(x), None) => Some(x.clone()),
        (Some(x), Some(y)) => {
            if *x == y {
                Some(y)
            } else {
                return Err(ReduceErrorKind::UnitMismatch);
            }
        },
    };
    let entry = Ingredient { name: reg[i].name.clone(), id: reg[i].id, amount: merged, unit };
    reg.set(i, entry);
    assert(registry_view(reg@) =~= g.update(i as int, entry@));
    Ok(())
}

/// An error met while reducing, with the ingredient name or metadata key at fault.
#[derive(Clone, Debug, PartialEq, Eq)]
pub struct ReduceError {
    pub kind: ReduceErrorKind,
    pub name: String,
}

impl View for ReduceError {
    type V = ReduceErrV;

    open spec fn view(&self) -> ReduceErrV {
        ReduceErrV { kind: self.kind, name: self.name@ }
    }
}

/// The reduction in progress.
struct Builder {
    meta: Metadata,
    instruction: String,
    stepped: bool,
}

impl View for Builder {
    type V = StateV;

    closed spec fn view(&self) -> StateV {
        StateV { meta: self.meta@, instruction: self.instruction@, stepped: self.stepped }
    }
}

pub open spec fn state_ok(st: StateV) -> bool {
    names_unique(st.meta.ingredients) && keys_unique(st.meta.ominous)
}

fn append_marker(buf: &mut String, c: char)
    requires
        c == '@' || c == '#' || c == '~' || c == '\n',
    ensures
        final(buf)@ == old(buf)@.push(c),
{
    proof {
        reveal_strlit("@");
        reveal_strlit("#");
        reveal_strlit("~");
        reveal_strlit("\n");
    }
    if c == '@' {
        buf.append("@");
    } else if c == '#' {
        buf.append("#");
    } else if c == '~' {
        buf.append("~");
    } else {
        buf.append("\n");
    }
    assert(final(buf)@ =~= old(buf)@.push(c));
}

fn apply_item_exec(b: &mut Builder, it: &StepItem) -> (r: Result<(), ReduceError>)
    requires
        state_ok(old(b)@),
    ensures
        match apply_item(old(b)@, it@) {
            Ok(s2) => r is Ok && final(b)@ == s2 && state_ok(s2),
            Err(e) => r is Err && r->Err_0@ == e,
        },
{
    let ghost st = b@;
    match it {
        StepItem::Content(t) => {
            b.instruction.append(t.as_str());
            Ok(())
        },
        StepItem::Ingredient(i) => {
            let (a, u) = match parse_amount(i.amount.as_str()) {
                None => {
                    return Err(ReduceError { kind: ReduceErrorKind::BadAmount, name: i.name.clone() });
                },
                Some(p) => p,
            };
            let in_step = copy_amount(&a);
            match upsert_exec(&mut b.meta.ingredients, &i.name, a, u) {
                Err(k) => {
                    return Err(ReduceError { kind: k, name: i.name.clone() });
                },
                Ok(()) => {},
            }
            let sp = IngredientSpecifier { ingredient: i.name.clone(), amount_in_step: in_step };
            b.meta.ingredients_specifiers.push(sp);
            assert(specifiers_view(b.meta.ingredients_specifiers@) =~= st.meta.ingredients_specifiers.push(sp@));
            append_marker(&mut b.instruction, '@');
            Ok(())
        },
        StepItem::Cookware(c) => {
            b.meta.cookware.push(c.name.clone());
            assert(names_view(b.meta.cookware@) =~= st.meta.cookware.push(c.name@));
            append_marker(&mut b.instruction, '#');
            Ok(())
        },
        StepItem::Timer(t) => {
            let tm = Timer { amount: t.duration, unit: t.unit.clone() };
            b.meta.timer.push(tm);
            assert(timers_view(b.meta.timer@) =~= st.meta.timer.push((t.duration, t.unit@)));
            append_marker(&mut b.instruction, '~');
            Ok(())
        },
    }
}

fn apply_line_exec(b: &mut Builder, line: &RecipeLine) -> (r: Result<(), ReduceError>)
    requires
        state_ok(old(b)@),
    ensures
        match apply_line(old(b)@, line@) {
            Ok(s2) => r is Ok && final(b)@ == s2 && state_ok(s2),
            Err(e) => r is Err && r->Err_0@ == e,
        },
{
    match line {
        RecipeLine::Metadata(m) => {
            if is_servings(m.key.as_str()) {
                match parse_servings(m.value.as_str()) {
                    Some(tiers) => {
                        b.meta.servings = Some(tiers);
                        Ok(())
                    },
                    None => Err(ReduceError { kind: ReduceErrorKind::BadServings, name: m.key.clone() }),
                }
            } else {
                b.meta.add_key_value(m.key.clone(), m.value.clone());
                Ok(())
            }
        },
        RecipeLine::Step(items) => {
            if b.stepped {
                append_marker(&mut b.instruction, '\n');
            }
            b.stepped = true;
            let ghost iv = items_view(items@);
            let mut j: usize = 0;
            while j < items.len()
                invariant
                    j <= items@.len(),
                    iv == items_view(items@),
                    state_ok(b@),
                    apply_line(old(b)@, line@) == items_from(b@, iv, j as int),
                decreases items@.len() - j,
            {
                match apply_item_exec(b, &items[j]) {
                    Err(e) => {
                        return Err(e);
                    },
                    Ok(()) => {},
                }
                j = j + 1;
            }
            Ok(())
        },
    }
}

/// Reduces the lines read from `source` into a recipe; fails with the
/// first ingredient or metadata entry that cannot be taken in.
pub fn reduce(source: &str, lines: &Vec<RecipeLine>) -> (r: Result<Recipe, ReduceError>)
    ensures
        match r {
            Ok(rc) => reduce_spec(source@, lines_view(lines@)) == Ok::<RecipeV, ReduceErrV>(rc@),
            Err(e) => reduce_spec(source@, lines_view(lines@)) == Err::<RecipeV, ReduceErrV>(e@),
        },
{
    let ghost lv = lines_view(lines@);
    let mut b = Builder {
        meta: Metadata {
            servings: None,
            ominous: Vec::new(),
            ingredients: Vec::new(),
            ingredients_specifiers: Vec::new(),
            cookware: Vec::new(),
            timer: Vec::new(),
        },
        instruction: String::new(),
        stepped: false,
    };
    assert(b@ == initial_state()) by {
        assert(b@.meta.ominous =~= seq![]);
        assert(b@.meta.ingredients =~= seq![]);
        assert(b@.meta.ingredients_specifiers =~= seq![]);
        assert(b@.meta.cookware =~= seq![]);
        assert(b@.meta.timer =~= seq![]);
        assert(b@.instruction =~= seq![]);
    }
    let mut i: usize = 0;
    while i < lines.len()
        invariant
            i <= lines@.len(),
            lv == lines_view(lines@),
            state_ok(b@),
            lines_from(initial_state(), lv, 0) == lines_from(b@, lv, i as int),
        decreases lines@.len() - i,
    {
        match apply_line_exec(&mut b, &lines[i]) {
            Err(e) => {
                return Err(e);
            },
            Ok(()) => {},
        }
        i = i + 1;
    }
    Ok(Recipe { source: source.to_owned(), metadata: b.meta, instruction: b.instruction })
}

/// Why a recipe text could not be turned into a recipe.
#[derive(Clone, Debug, PartialEq, Eq)]
pub enum RecipeError {
    Syntax(ParseError),
    Reduce(ReduceError),
}

/// The recipe that a text gives: its lines, reduced.
pub open spec fn recipe_of(s: Seq<char>) -> Result<RecipeV, RecipeErrV> {
    match recipe_lines(s) {
        Err(e) => Err(RecipeErrV::Syntax(e)),
        Ok(lines) => match reduce_spec(s, lines) {
            Ok(rc) => Ok(rc),
            Err(e) => Err(RecipeErrV::Reduce(e)),
        },
    }
}

pub enum RecipeErrV {
    Syntax(ErrV),
    Reduce(ReduceErrV),
}

impl View for RecipeError {
    type V = RecipeErrV;

    open spec fn view(&self) -> RecipeErrV {
        match self {
            RecipeError::Syntax(e) => RecipeErrV::Syntax(e@),
            RecipeError::Reduce(e) => RecipeErrV::Reduce(e@),
        }
    }
}

/// Parses a recipe text and reduces its lines.
pub fn parse_recipe(input: &str) -> (r: Result<Recipe, RecipeError>)
    ensures
        match r {
            Ok(rc) => recipe_of(input@) == Ok::<RecipeV, RecipeErrV>(rc@),
            Err(e) => recipe_of(input@) == Err::<RecipeV, RecipeErrV>(e@),
        },
{
    match parse(input) {
        Err(e) => Err(RecipeError::Syntax(e)),
        Ok(lines) => match reduce(input, &lines) {
            Ok(rc) => Ok(rc),
            Err(e) => Err(RecipeError::Reduce(e)),
        },
    }
}

/// The names of the registry entries, in order.
pub open spec fn registry_names(reg: Seq<IngredientV>) -> Seq<Seq<char>> {
    reg.map_values(|x: IngredientV| x.name)
}

/// The ingredient names of the mentions, in order.
pub open spec fn mentioned(sp: Seq<SpecifierV>) -> Seq<Seq<char>> {
    sp.map_values(|x: SpecifierV| x.ingredient)
}

/// The registry holds each mentioned name once, and nothing else.
pub open spec fn registry_matches(st: StateV) -> bool {
    &&& names_unique(st.meta.ingredients)
    &&& registry_names(st.meta.ingredients).to_set() == mentioned(
        st.meta.ingredients_specifiers,
    ).to_set()
}

proof fn lemma_item_keeps_registry(st: StateV, it: ItemV)
    requires
        registry_matches(st),
        apply_item(st, it) is Ok,
    ensures
        registry_matches(apply_item(st, it)->Ok_0),
{
    broadcast use vstd::seq::Seq::lemma_push_to_set_commute;

    if let ItemV::Ingredient(n, raw) = it {
        let (a, u) = amount_of(raw)->Some_0;
        let reg = st.meta.ingredients;
        let sp = st.meta.ingredients_specifiers;
        let reg2 = upsert(reg, n, a, u)->Ok_0;
        let sp2 = sp.push(SpecifierV { ingredient: n, amount_in_step: a });
        assert(mentioned(sp2) =~= mentioned(sp).push(n));
        if registry_has(reg, n) {
            let i = choose|i: int| 0 <= i < reg.len() && reg[i].name == n;
            assert(registry_names(reg2) =~= registry_names(reg));
            assert(registry_names(reg)[i] == n);
            assert(registry_names(reg).to_set().contains(n));
            assert(mentioned(sp2).to_set() =~= mentioned(sp).to_set());
        } else {
            assert(registry_names(reg2) =~= registry_names(reg).push(n));
        }
    }
}

proof fn lemma_items_keep_registry(st: StateV, items: Seq<ItemV>, j: int)
    requires
        registry_matches(st),
        items_from(st, items, j) is Ok,
    ensures
        registry_matches(items_from(st, items, j)->Ok_0),
    decreases items.len() - j,
{
    if 0 <= j < items.len() {
        lemma_item_keeps_registry(st, items[j]);
        lemma_items_keep_registry(apply_item(st, items[j])->Ok_0, items, j + 1);
    }
}

proof fn lemma_lines_keep_registry(st: StateV, lines: Seq<LineV>, i: int)
    requires
        registry_matches(st),
        lines_from(st, lines, i) is Ok,
    ensures
        registry_matches(lines_from(st, lines, i)->Ok_0),
    decreases lines.len() - i,
{
    if 0 <= i < lines.len() {
        if let LineV::Step(items) = lines[i] {
            let start = StateV {
                instruction: if st.stepped {
                    st.instruction.push('\n')
                } else {
                    st.instruction
                },
                stepped: true,
                ..st
            };
            lemma_items_keep_registry(start, items, 0);
        }
        lemma_lines_keep_registry(apply_line(st, lines[i])->Ok_0, lines, i + 1);
    }
}

/// A name gets one registry entry however often it is mentioned, and each
/// mention its own specifier: the registry has as many entries as distinct
/// names were mentioned, never more than there are specifiers, and exactly
/// as many when no name is mentioned twice.
pub proof fn lemma_registry_dedup(s: Seq<char>)
    requires
        recipe_of(s) is Ok,
    ensures
        ({
            let m = recipe_of(s)->Ok_0.metadata;
            &&& m.ingredients.len() == mentioned(m.ingredients_specifiers).to_set().len()
            &&& m.ingredients_specifiers.len() >= m.ingredients.len()
            &&& (m.ingredients_specifiers.len() == m.ingredients.len() <==> mentioned(
                m.ingredients_specifiers,
            ).no_duplicates())
        }),
{
    let lines = recipe_lines(s)->Ok_0;
    let init = initial_state();
    assert(registry_names(init.meta.ingredients) =~= seq![]);
    assert(mentioned(init.meta.ingredients_specifiers) =~= seq![]);
    lemma_lines_keep_registry(init, lines, 0);
    let st = lines_from(init, lines, 0)->Ok_0;
    let names = registry_names(st.meta.ingredients);
    let ms = mentioned(st.meta.ingredients_specifiers);
    assert(names.no_duplicates());
    names.unique_seq_to_set();
    ms.lemma_cardinality_of_set();
    if ms.no_duplicates() {
        ms.unique_seq_to_set();
    }
    if ms.len() == names.len() {
        ms.lemma_no_dup_set_cardinality();
    }
}

/// The lines joined by line breaks.
pub open spec fn join_lines(ts: Seq<Seq<char>>) -> Seq<char>
    decreases ts.len(),
{
    if ts.len() == 0 {
        seq![]
    } else if ts.len() == 1 {
        ts[0]
    } else {
        join_lines(ts.drop_last()) + seq!['\n'] + ts.last()
    }
}

proof fn lemma_plain_lines_join(st: StateV, ts: Seq<Seq<char>>, i: int)
    requires
        0 <= i <= ts.len(),
        st.instruction == join_lines(ts.take(i)),
        st.stepped == (i > 0),
    ensures
        lines_from(st, plain_steps(ts), i) is Ok,
        lines_from(st, plain_steps(ts), i)->Ok_0.instruction == join_lines(ts),
    decreases ts.len() - i,
{
    let lines = plain_steps(ts);
    if i < ts.len() {
        let t = ts[i];
        assert(lines[i] == LineV::Step(seq![ItemV::Content(t)]));
        let start = StateV {
            instruction: if st.stepped {
                st.instruction.push('\n')
            } else {
                st.instruction
            },
            stepped: true,
            ..st
        };
        let next = StateV { instruction: start.instruction + t, ..start };
        assert(items_from(next, seq![ItemV::Content(t)], 1) == Ok::<StateV, ReduceErrV>(next));
        assert(apply_line(st, lines[i]) == Ok::<StateV, ReduceErrV>(next));
        let tk = ts.take(i + 1);
        if i == 0 {
            assert(tk.len() == 1 && tk[0] == t);
            assert(st.instruction =~= seq![]);
            assert(next.instruction =~= t);
        } else {
            assert(tk.drop_last() =~= ts.take(i));
            assert(tk.last() == t);
            assert(next.instruction =~= join_lines(ts.take(i)) + seq!['\n'] + t);
        }
        lemma_plain_lines_join(next, ts, i + 1);
    } else {
        assert(ts.take(i) =~= ts);
    }
}

/// A text with no metadata lines and no annotations reduces to an
/// instruction that is the text itself, less blank lines and the whitespace
/// around each line.
pub proof fn lemma_plain_round_trip(s: Seq<char>)
    requires
        has_no_annotation(s, 0),
        has_no_metadata(text_lines(s, 0)),
    ensures
        recipe_of(s) is Ok,
        recipe_of(s)->Ok_0.instruction == join_lines(text_lines(s, 0)),
{
    lemma_plain_text_lines(s);
    let ts = text_lines(s, 0);
    assert(ts.take(0) =~= seq![]);
    lemma_plain_lines_join(initial_state(), ts, 0);
}

} // verus!
