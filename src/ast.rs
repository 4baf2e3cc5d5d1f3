use vstd::prelude::*;

verus! {

/// A `key: value` line introduced by `>>`.
#[derive(Clone, Debug, PartialEq, Eq)]
pub struct Metadata {
    pub key: String,
    pub value: String,
}

/// An ingredient mention; `amount` is the raw text between the braces.
#[derive(Clone, Debug, PartialEq, Eq)]
pub struct Ingredient {
    pub name: String,
    pub amount: String,
}

/// A cookware mention.
#[derive(Clone, Debug, PartialEq, Eq)]
pub struct Cookware {
    pub name: String,
}

/// A timer mention `~{duration%unit}`.
#[derive(Clone, Debug, PartialEq, Eq)]
pub struct Timer {
    pub duration: u64,
    pub unit: String,
}

/// One part of a step, in the order of the text.
#[derive(Clone, Debug, PartialEq, Eq)]
pub enum StepItem {
    Content(String),
    Ingredient(Ingredient),
    Cookware(Cookware),
    Timer(Timer),
}

/// A non-blank line of a recipe.
#[derive(Clone, Debug, PartialEq, Eq)]
pub enum RecipeLine {
    Metadata(Metadata),
    Step(Vec<StepItem>),
}

/// What a step item stands for, with its text as characters.
pub enum ItemV {
    Content(Seq<char>),
    Ingredient(Seq<char>, Seq<char>),
    Cookware(Seq<char>),
    Timer(u64, Seq<char>),
}

/// What a line stands for.
pub enum LineV {
    Metadata(Seq<char>, Seq<char>),
    Step(Seq<ItemV>),
}

impl View for StepItem {
    type V = ItemV;

    open spec fn view(&self) -> ItemV {
        match self {
            StepItem::Content(t) => ItemV::Content(t@),
            StepItem::Ingredient(i) => ItemV::Ingredient(i.name@, i.amount@),
            StepItem::Cookware(c) => ItemV::Cookware(c.name@),
            StepItem::Timer(t) => ItemV::Timer(t.duration, t.unit@),
        }
    }
}

pub open spec fn items_view(v: Seq<StepItem>) -> Seq<ItemV> {
    v.map_values(|x: StepItem| x@)
}

impl View for RecipeLine {
    type V = LineV;

    open spec fn view(&self) -> LineV {
        match self {
            RecipeLine::Metadata(m) => LineV::Metadata(m.key@, m.value@),
            RecipeLine::Step(v) => LineV::Step(items_view(v@)),
        }
    }
}

pub open spec fn lines_view(v: Seq<RecipeLine>) -> Seq<LineV> {
    v.map_values(|x: RecipeLine| x@)
}

} // verus!
