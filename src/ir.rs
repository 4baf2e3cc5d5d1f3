use vstd::prelude::*;

verus! {

/// A quantity of an ingredient.
///
/// `Multi` is a factor to multiply by a serving count, `Servings` holds one
/// value per declared serving tier, `Single` is a fixed value.
#[derive(Clone, Debug, PartialEq, Eq)]
pub enum Amount {
    Multi(u64),
    Servings(Vec<u64>),
    Single(u64),
}

/// Why two amounts cannot be merged.
#[derive(Clone, Copy, Debug, PartialEq, Eq)]
pub enum AmountError {
    /// The two amounts are of different variants.
    Mismatch,
    /// Two `Servings` amounts have different numbers of tiers.
    TierCount,
    /// A sum does not fit in `u64`.
    Overflow,
}

/// The mathematical content of an amount.
pub enum AmountV {
    Multi(nat),
    Servings(Seq<nat>),
    Single(nat),
}

impl View for Amount {
    type V = AmountV;

    open spec fn view(&self) -> AmountV {
        match self {
            Amount::Multi(a) => AmountV::Multi(*a as nat),
            Amount::Servings(v) => AmountV::Servings(v@.map_values(|x: u64| x as nat)),
            Amount::Single(a) => AmountV::Single(*a as nat),
        }
    }
}

/// Element-wise sum of two sequences of the same length.
pub open spec fn sum_seq(a: Seq<nat>, b: Seq<nat>) -> Seq<nat> {
    Seq::new(a.len(), |i: int| a[i] + b[i])
}

/// The merge of two amounts: `None` when the variants or tier counts differ.
pub open spec fn merge(a: AmountV, b: AmountV) -> Option<AmountV> {
    match (a, b) {
        (AmountV::Multi(x), AmountV::Multi(y)) => Some(AmountV::Multi(x + y)),
        (AmountV::Single(x), AmountV::Single(y)) => Some(AmountV::Single(x + y)),
        (AmountV::Servings(x), AmountV::Servings(y)) => if x.len() == y.len() {
            Some(AmountV::Servings(sum_seq(x, y)))
        } else {
            None
        },
        _ => None,
    }
}

pub open spec fn same_variant(a: AmountV, b: AmountV) -> bool {
    match (a, b) {
        (AmountV::Multi(_), AmountV::Multi(_)) => true,
        (AmountV::Single(_), AmountV::Single(_)) => true,
        (AmountV::Servings(_), AmountV::Servings(_)) => true,
        _ => false,
    }
}

/// Every value of the amount fits in `u64`.
pub open spec fn fits(a: AmountV) -> bool {
    match a {
        AmountV::Multi(x) => x <= u64::MAX,
        AmountV::Single(x) => x <= u64::MAX,
        AmountV::Servings(s) => all_fit(s),
    }
}

pub open spec fn all_fit(s: Seq<nat>) -> bool {
    forall|i: int| 0 <= i < s.len() ==> #[trigger] s[i] <= u64::MAX
}

/// What adding `b` to `a` gives.
pub open spec fn add_result(a: AmountV, b: AmountV) -> Result<AmountV, AmountError> {
    if !same_variant(a, b) {
        Err(AmountError::Mismatch)
    } else {
        match merge(a, b) {
            None => Err(AmountError::TierCount),
            Some(m) => if fits(m) {
                Ok(m)
            } else {
                Err(AmountError::Overflow)
            },
        }
    }
}

/// Adding two `Single` amounts gives their sum, adding two `Servings`
/// amounts with as many tiers gives their element-wise sum, and adding
/// amounts of different variants fails; sums beyond `u64` are left out.
pub proof fn lemma_merge_law(a: AmountV, b: AmountV)
    ensures
        a is Single && b is Single && a->Single_0 + b->Single_0 <= u64::MAX ==> add_result(a, b)
            == Ok::<AmountV, AmountError>(AmountV::Single(a->Single_0 + b->Single_0)),
        a is Servings && b is Servings && a->Servings_0.len() == b->Servings_0.len() && all_fit(
            sum_seq(a->Servings_0, b->Servings_0),
        ) ==> add_result(a, b) == Ok::<AmountV, AmountError>(
            AmountV::Servings(sum_seq(a->Servings_0, b->Servings_0)),
        ),
        !same_variant(a, b) ==> add_result(a, b) == Err::<AmountV, AmountError>(
            AmountError::Mismatch,
        ),
{
}

impl Amount {
    /// A copy of the amount.
    pub fn copied(&self) -> (r: Amount)
        ensures
            r@ == self@,
    {
        match self {
            Amount::Multi(a) => Amount::Multi(*a),
            Amount::Single(a) => Amount::Single(*a),
            Amount::Servings(v) => {
                let mut out: Vec<u64> = Vec::new();
                let mut i: usize = 0;
                while i < v.len()
                    invariant
                        i <= v.len(),
                        out@ == v@.subrange(0, i as int),
                    decreases v.len() - i,
                {
                    out.push(v[i]);
                    i = i + 1;
                    assert(out@ =~= v@.subrange(0, i as int));
                }
                assert(out@ =~= v@);
                Amount::Servings(out)
            },
        }
    }

    /// Merges two amounts of the same variant by adding their values;
    /// fails on different variants, tier counts, or a sum beyond `u64`.
    pub fn add(self, rhs: Amount) -> (r: Result<Amount, AmountError>)
        ensures
            match r {
                Ok(a) => add_result(self@, rhs@) == Ok::<AmountV, AmountError>(a@),
                Err(e) => add_result(self@, rhs@) == Err::<AmountV, AmountError>(e),
            },
    {
        match (self, rhs) {
            (Amount::Multi(a), Amount::Multi(b)) => match a.checked_add(b) {
                Some(c) => Ok(Amount::Multi(c)),
                None => Err(AmountError::Overflow),
            },
            (Amount::Single(a), Amount::Single(b)) => match a.checked_add(b) {
                Some(c) => Ok(Amount::Single(c)),
                None => Err(AmountError::Overflow),
            },
            (Amount::Servings(a), Amount::Servings(b)) => {
                if a.len() != b.len() {
                    return Err(AmountError::TierCount);
                }
                let ghost sa = a@.map_values(|x: u64| x as nat);
                let ghost sb = b@.map_values(|x: u64| x as nat);
                assert(self@ == AmountV::Servings(sa));
                let mut out: Vec<u64> = Vec::new();
                let mut i: usize = 0;
                while i < a.len()
                    invariant
                        a.len() == b.len(),
                        sa == a@.map_values(|x: u64| x as nat),
                        sb == b@.map_values(|x: u64| x as nat),
                        self@ == AmountV::Servings(sa),
                        rhs@ == AmountV::Servings(sb),
                        i <= a.len(),
                        out@.len() == i,
                        forall|j: int| 0 <= j < i ==> out@[j] as nat == a@[j] + b@[j],
                    decreases a.len() - i,
                {
                    match a[i].checked_add(b[i]) {
                        Some(c) => out.push(c),
                        None => {
                            proof {
                                let m = sum_seq(sa, sb);
                                assert(0 <= i < m.len() && m[i as int] > u64::MAX);
                                assert(merge(self@, rhs@) == Some(AmountV::Servings(m)));
                                assert(!all_fit(m));
                                assert(!fits(AmountV::Servings(m)));
                            }
                            return Err(AmountError::Overflow);
                        },
                    }
                    i = i + 1;
                }
                proof {
                    assert(out@.map_values(|x: u64| x as nat) =~= sum_seq(sa, sb));
                }
                Ok(Amount::Servings(out))
            },
            (Amount::Multi(_), _) => Err(AmountError::Mismatch),
            (Amount::Single(_), _) => Err(AmountError::Mismatch),
            (Amount::Servings(_), _) => Err(AmountError::Mismatch),
        }
    }
}

/// A timer of the instruction: `amount` units of `unit`.
#[derive(Clone, Debug, PartialEq, Eq)]
pub struct Timer {
    pub amount: u64,
    pub unit: String,
}

/// One mention of an ingredient, with the amount written at that mention.
#[derive(Clone, Debug, PartialEq, Eq)]
pub struct IngredientSpecifier {
    /// The name of the ingredient in the registry.
    pub ingredient: String,
    /// The amount of this mention; `None` where no amount was written.
    pub amount_in_step: Option<Amount>,
}

/// An entry of the ingredient registry.
#[derive(Clone, Debug, PartialEq, Eq)]
pub struct Ingredient {
    pub name: String,
    /// The position of the entry in the registry, unique within a recipe.
    pub id: usize,
    /// The sum of the amounts of all mentions; `None` where none had one.
    pub amount: Option<Amount>,
    pub unit: Option<String>,
}

/// Everything a recipe declares besides its instruction text.
#[derive(Clone, Debug, PartialEq, Eq)]
pub struct Metadata {
    /// Serving tiers, when a `servings` entry was given.
    pub servings: Option<Vec<u64>>,
    /// The other metadata entries, keys unique, in order of first appearance.
    pub ominous: Vec<(String, String)>,
    /// The ingredient registry, names unique, in order of first mention.
    pub ingredients: Vec<Ingredient>,
    /// One entry per ingredient mention: the n-th `@` of the instruction.
    pub ingredients_specifiers: Vec<IngredientSpecifier>,
    /// The n-th `#` of the instruction.
    pub cookware: Vec<String>,
    /// The n-th `~` of the instruction.
    pub timer: Vec<Timer>,
}

/// A reduced recipe.
#[derive(Clone, Debug, PartialEq, Eq)]
pub struct Recipe {
    /// The text the recipe was read from.
    pub source: String,
    pub metadata: Metadata,
    /// The steps, joined by line breaks, with `@`, `#` and `~` in place of
    /// each ingredient, cookware and timer.
    pub instruction: String,
}

pub open spec fn opt_amount(a: Option<Amount>) -> Option<AmountV> {
    match a {
        Some(x) => Some(x@),
        None => None,
    }
}

pub open spec fn opt_text(u: Option<String>) -> Option<Seq<char>> {
    match u {
        Some(x) => Some(x@),
        None => None,
    }
}

pub struct IngredientV {
    pub name: Seq<char>,
    pub id: nat,
    pub amount: Option<AmountV>,
    pub unit: Option<Seq<char>>,
}

pub struct SpecifierV {
    pub ingredient: Seq<char>,
    pub amount_in_step: Option<AmountV>,
}

pub struct MetadataV {
    pub servings: Option<Seq<u64>>,
    pub ominous: Seq<(Seq<char>, Seq<char>)>,
    pub ingredients: Seq<IngredientV>,
    pub ingredients_specifiers: Seq<SpecifierV>,
    pub cookware: Seq<Seq<char>>,
    pub timer: Seq<(u64, Seq<char>)>,
}

pub struct RecipeV {
    pub source: Seq<char>,
    pub metadata: MetadataV,
    pub instruction: Seq<char>,
}

impl View for Ingredient {
    type V = IngredientV;

    open spec fn view(&self) -> IngredientV {
        IngredientV {
            name: self.name@,
            id: self.id as nat,
            amount: opt_amount(self.amount),
            unit: opt_text(self.unit),
        }
    }
}

impl View for IngredientSpecifier {
    type V = SpecifierV;

    open spec fn view(&self) -> SpecifierV {
        SpecifierV { ingredient: self.ingredient@, amount_in_step: opt_amount(self.amount_in_step) }
    }
}

pub open spec fn entries_view(v: Seq<(String, String)>) -> Seq<(Seq<char>, Seq<char>)> {
    v.map_values(|p: (String, String)| (p.0@, p.1@))
}

pub open spec fn registry_view(v: Seq<Ingredient>) -> Seq<IngredientV> {
    v.map_values(|x: Ingredient| x@)
}

pub open spec fn specifiers_view(v: Seq<IngredientSpecifier>) -> Seq<SpecifierV> {
    v.map_values(|x: IngredientSpecifier| x@)
}

pub open spec fn names_view(v: Seq<String>) -> Seq<Seq<char>> {
    v.map_values(|x: String| x@)
}

pub open spec fn timers_view(v: Seq<Timer>) -> Seq<(u64, Seq<char>)> {
    v.map_values(|t: Timer| (t.amount, t.unit@))
}

impl View for Metadata {
    type V = MetadataV;

    open spec fn view(&self) -> MetadataV {
        MetadataV {
            servings: match self.servings {
                Some(v) => Some(v@),
                None => None,
            },
            ominous: entries_view(self.ominous@),
            ingredients: registry_view(self.ingredients@),
            ingredients_specifiers: specifiers_view(self.ingredients_specifiers@),
            cookware: names_view(self.cookware@),
            timer: timers_view(self.timer@),
        }
    }
}

impl View for Recipe {
    type V = RecipeV;

    open spec fn view(&self) -> RecipeV {
        RecipeV { source: self.source@, metadata: self.metadata@, instruction: self.instruction@ }
    }
}

/// The ominous entries after `key` is set to `value`: the entry of that key
/// is overwritten where there is one, else the pair is appended.
pub open spec fn put_entry(om: Seq<(Seq<char>, Seq<char>)>, key: Seq<char>, value: Seq<char>) -> Seq<
    (Seq<char>, Seq<char>),
> {
    if exists|i: int| 0 <= i < om.len() && om[i].0 == key {
        let i = choose|i: int| 0 <= i < om.len() && om[i].0 == key;
        om.update(i, (key, value))
    } else {
        om.push((key, value))
    }
}

pub open spec fn keys_unique(om: Seq<(Seq<char>, Seq<char>)>) -> bool {
    forall|i: int, j: int| 0 <= i < j < om.len() ==> om[i].0 != om[j].0
}

impl Metadata {
    /// Sets the metadata entry `key` to `value`, replacing an earlier value.
    pub fn add_key_value(&mut self, key: String, value: String)
        requires
            keys_unique(old(self)@.ominous),
        ensures
            final(self)@ == (MetadataV {
                ominous: put_entry(old(self)@.ominous, key@, value@),
                ..old(self)@
            }),
            keys_unique(final(self)@.ominous),
    {
        let ghost om = self@.ominous;
        let mut i: usize = 0;
        let mut found: bool = false;
        while i < self.ominous.len()
            invariant
                i <= self.ominous@.len(),
                self@.ominous == om,
                keys_unique(om),
                found ==> i < om.len() && om[i as int].0 == key@,
                !found ==> forall|j: int| 0 <= j < i ==> om[j].0 != key@,
            ensures
                self@.ominous == om,
                found ==> i < om.len() && om[i as int].0 == key@,
                !found ==> forall|j: int| 0 <= j < om.len() ==> om[j].0 != key@,
            decreases self.ominous@.len() - i,
        {
            if self.ominous[i].0 == key {
                found = true;
                break;
            }
            i = i + 1;
        }
        if found {
            assert(forall|j: int| 0 <= j < om.len() && om[j].0 == key@ ==> j == i);
            self.ominous.set(i, (key, value));
        } else {
            self.ominous.push((key, value));
        }
        assert(self@.ominous =~= put_entry(om, key@, value@));
    }
}

} // verus!
