//! Domain values in, domain values out: one reader and one writer per
//! persisted entity.
//!
//! Nothing here reaches for a clock, a network or a random number: a mapping
//! that needed one would be doing something the domain should have done
//! first.

use vstd::prelude::*;

use crate::event::{Action, Event, Subject};
use crate::ids::{DeviceId, IngredientId, ListEntryId, RecipeId, Timestamp, UsageId, UserId};
use crate::overlay::Explicit;
use crate::people::{Device, User};
use crate::ingredient::{Aisle, Ingredient};
use crate::list::{ListEntry, ListItem};
use crate::quantity::Quantity;
use crate::rational::Rational;
use crate::recipe::{
    Component, IngredientUsage, RefDisplay, Recipe, Segment, Step, SubRecipeAmount, SubRecipeUsage,
};
use crate::store::codec::{
    aisle, aisle_in, aisle_tag, aisle_tag_text, display, display_in, display_tag, display_tag_text, quantity,
    quantity_in, quantity_value, rational, rational_in, rational_text, rational_value, servings, servings_in,
    servings_value, timestamp_value, writes_quantity, law_aisle_tags_round_trip, law_display_tags_round_trip,
    law_quantities_round_trip, law_rationals_round_trip,
};
use crate::rational::denotes;
use crate::store::error::StoreError;
use crate::store::schema::{
    lemma_spellings, ACTION, ADDED_AT, ADDED_BY, AISLE, ALIASES, AT, BY, CHECKED, COMPONENTS, DELETED, DENSITY,
    DISPLAY, EDITED, FACTOR, ID, INGREDIENT, KIND, LABEL, LIST_ENTRY, NAME, OF_YIELD, OWNER, PAIRED_AT, QUANTITY,
    RECIPE, SEGMENTS, SERVINGS, STAPLE, STATE, STEPS, SUBJECT_ID, SUBJECT_KIND, SUB_RECIPE, TEXT, UNCHECKED,
    UNIT_WEIGHT, USAGE, YIELDS,
};
use crate::store::value::{
    as_list, as_map, as_text, bool_at, bool_field, corrupt, field, int_at, int_field, joined, lemma_entry_absent,
    lemma_entry_at,
    list, optional, present, string, table, text, text_at, text_field, Value,
};

verus! {

/// The texts of `s`.
pub open spec fn views(s: Seq<String>) -> Seq<Seq<char>> {
    s.map_values(|x: String| x@)
}

// --- ingredients ------------------------------------------------------------

/// An optional rational field holds a rational when it holds anything.
pub open spec fn opt_rational_ok(m: Seq<(String, Value)>, key: Seq<char>) -> bool {
    match present(m, key) {
        Some(x) => rational_in(x) is Some,
        None => true,
    }
}

/// The rational an optional field holds.
pub open spec fn opt_rational_in(m: Seq<(String, Value)>, key: Seq<char>) -> Option<Rational> {
    match present(m, key) {
        Some(x) => rational_in(x),
        None => None,
    }
}

/// `v` is how the optional rational `r` is written: absent for `None`.
pub open spec fn writes_opt_rational(m: Seq<(String, Value)>, key: Seq<char>, r: Option<Rational>) -> bool {
    match r {
        Some(x) => present(m, key) matches Some(w) && as_text(w) == Some(rational_text(x)),
        None => present(m, key) is None,
    }
}

/// Aliases, when there are any, are a list of strings.
pub open spec fn aliases_ok(m: Seq<(String, Value)>) -> bool {
    match present(m, ALIASES@) {
        Some(a) => as_list(a) matches Some(l) && forall|i: int| 0 <= i < l.len() ==> (#[trigger] as_text(l[i])) is Some,
        None => true,
    }
}

/// The aliases `m` holds; none when the key is absent.
pub open spec fn aliases_in(m: Seq<(String, Value)>) -> Seq<Seq<char>> {
    match present(m, ALIASES@) {
        Some(a) => match as_list(a) {
            Some(l) => l.map_values(|x: Value| as_text(x)->0),
            None => Seq::empty(),
        },
        None => Seq::empty(),
    }
}

/// The aisle `m` holds.
pub open spec fn aisle_at(m: Seq<(String, Value)>) -> Option<Aisle> {
    match present(m, AISLE@) {
        Some(a) => aisle_in(a),
        None => None,
    }
}

/// An ingredient's value holds a name, an aisle and the staple flag, and
/// well-formed optional fields.
pub open spec fn ingredient_ok(v: Value) -> bool {
    &&& as_map(v) matches Some(m)
    &&& aliases_ok(m)
    &&& text_at(m, NAME@) is Some
    &&& aisle_at(m) is Some
    &&& bool_at(m, STAPLE@) is Some
    &&& opt_rational_ok(m, DENSITY@)
    &&& opt_rational_ok(m, UNIT_WEIGHT@)
}

/// `i` is the ingredient stored as `v` under `id`.
pub open spec fn reads_ingredient(id: Seq<char>, v: Value, i: Ingredient) -> bool {
    &&& i.id@ == id
    &&& as_map(v) matches Some(m)
    &&& text_at(m, NAME@) == Some(i.name@)
    &&& views(i.aliases@) == aliases_in(m)
    &&& aisle_at(m) == Some(i.aisle)
    &&& bool_at(m, STAPLE@) == Some(i.staple)
    &&& opt_rational_in(m, DENSITY@) == i.density
    &&& opt_rational_in(m, UNIT_WEIGHT@) == i.unit_weight
}

/// `v` is how `i` is written.
pub open spec fn writes_ingredient(v: Value, i: Ingredient) -> bool {
    &&& as_map(v) matches Some(m)
    &&& text_at(m, NAME@) == Some(i.name@)
    &&& present(m, ALIASES@) matches Some(a) && as_list(a) matches Some(l) && l.len() == i.aliases@.len()
        && forall|k: int| 0 <= k < l.len() ==> #[trigger] as_text(l[k]) == Some(i.aliases@[k]@)
    &&& text_at(m, AISLE@) == Some(aisle_tag_text(i.aisle))
    &&& bool_at(m, STAPLE@) == Some(i.staple)
    &&& writes_opt_rational(m, DENSITY@, i.density)
    &&& writes_opt_rational(m, UNIT_WEIGHT@, i.unit_weight)
}

/// Reads an optional rational field.
fn opt_rational(m: &Vec<(String, Value)>, key: &str, path: &str) -> (r: Result<Option<Rational>, StoreError>)
    ensures
        match r {
            Ok(x) => opt_rational_ok(m@, key@) && opt_rational_in(m@, key@) == x,
            Err(e) => !opt_rational_ok(m@, key@) && e is Corrupt,
        },
{
    match optional(m, key) {
        Some(v) => Ok(Some(rational(v, path)?)),
        None => Ok(None),
    }
}

/// Reads a list of strings.
fn texts(value: &Value, path: &str) -> (r: Result<Vec<String>, StoreError>)
    ensures
        match r {
            Ok(out) => as_list(*value) matches Some(l) && (forall|i: int|
                0 <= i < l.len() ==> (#[trigger] as_text(l[i])) is Some) && views(out@) == l.map_values(
                |x: Value| as_text(x)->0,
            ),
            Err(e) => !(as_list(*value) matches Some(l) && forall|i: int|
                0 <= i < l.len() ==> (#[trigger] as_text(l[i])) is Some) && e is Corrupt,
        },
{
    let l = list(value, path)?;
    let mut out: Vec<String> = Vec::new();
    let mut i: usize = 0;
    while i < l.len()
        invariant
            i <= l@.len(),
            out@.len() == i,
            as_list(*value) == Some(l@),
            forall|j: int| 0 <= j < i ==> (#[trigger] as_text(l@[j])) == Some(out@[j]@),
        decreases l@.len() - i,
    {
        let s = string(&l[i], path)?;
        out.push(s);
        i = i + 1;
    }
    proof {
        assert(views(out@) =~= l@.map_values(|x: Value| as_text(x)->0));
    }
    Ok(out)
}

pub fn read_ingredient(id: &str, value: &Value) -> (r: Result<Ingredient, StoreError>)
    ensures
        match r {
            Ok(i) => ingredient_ok(*value) && reads_ingredient(id@, *value, i),
            Err(e) => !ingredient_ok(*value) && e is Corrupt,
        },
{
    let path = joined("ingredients.", id);
    let m = table(value, path.as_str())?;
    let aliases = match optional(m, ALIASES) {
        Some(a) => texts(a, path.as_str())?,
        None => Vec::new(),
    };
    proof {
        if present(m@, ALIASES@) is None {
            assert(views(aliases@) =~= Seq::<Seq<char>>::empty());
        }
    }
    let name = text_field(m, NAME, path.as_str())?;
    let a = aisle(field(m, AISLE, path.as_str())?, path.as_str())?;
    let staple = bool_field(m, STAPLE, path.as_str())?;
    let density = opt_rational(m, DENSITY, path.as_str())?;
    let unit_weight = opt_rational(m, UNIT_WEIGHT, path.as_str())?;
    Ok(
        Ingredient {
            id: IngredientId::from_raw(id),
            name,
            aliases,
            aisle: a,
            staple,
            density,
            unit_weight,
        },
    )
}

/// An optional rational, as `Null` when absent.
fn opt_rational_value(r: Option<Rational>) -> (v: Value)
    ensures
        match r {
            Some(x) => as_text(v) == Some(rational_text(x)),
            None => v is Null,
        },
{
    match r {
        Some(x) => rational_value(x),
        None => Value::Null,
    }
}

pub fn ingredient_value(ingredient: &Ingredient) -> (v: Value)
    ensures
        writes_ingredient(v, *ingredient),
{
    let mut aliases: Vec<Value> = Vec::new();
    let mut i: usize = 0;
    while i < ingredient.aliases.len()
        invariant
            i <= ingredient.aliases@.len(),
            aliases@.len() == i,
            forall|k: int| 0 <= k < i ==> #[trigger] as_text(aliases@[k]) == Some(ingredient.aliases@[k]@),
        decreases ingredient.aliases@.len() - i,
    {
        aliases.push(text(ingredient.aliases[i].as_str()));
        i = i + 1;
    }
    let mut entries: Vec<(String, Value)> = Vec::new();
    entries.push((NAME.to_owned(), text(ingredient.name.as_str())));
    entries.push((ALIASES.to_owned(), Value::List(aliases)));
    entries.push((AISLE.to_owned(), text(aisle_tag(ingredient.aisle))));
    entries.push((STAPLE.to_owned(), Value::Bool(ingredient.staple)));
    entries.push((DENSITY.to_owned(), opt_rational_value(ingredient.density)));
    entries.push((UNIT_WEIGHT.to_owned(), opt_rational_value(ingredient.unit_weight)));
    proof {
        lemma_spellings();
        lemma_entry_at(entries@, NAME@, 0);
        lemma_entry_at(entries@, ALIASES@, 1);
        lemma_entry_at(entries@, AISLE@, 2);
        lemma_entry_at(entries@, STAPLE@, 3);
        lemma_entry_at(entries@, DENSITY@, 4);
        lemma_entry_at(entries@, UNIT_WEIGHT@, 5);
    }
    Value::Table(entries)
}

// --- recipes ----------------------------------------------------------------

/// The amount a sub-recipe line holds: exactly one of a factor and an
/// amount of what the sub-recipe yields.
pub open spec fn amount_in(m: Seq<(String, Value)>) -> Option<SubRecipeAmount> {
    match (present(m, FACTOR@), present(m, OF_YIELD@)) {
        (Some(f), None) => match rational_in(f) {
            Some(x) => Some(SubRecipeAmount::Factor(x)),
            None => None,
        },
        (None, Some(q)) => match quantity_in(q) {
            Some(x) => Some(SubRecipeAmount::OfYield(x)),
            None => None,
        },
        _ => None,
    }
}

/// A recipe line's value: an ingredient usage or a sub-recipe reference,
/// told apart by its kind.
pub open spec fn component_ok(v: Value) -> bool {
    &&& as_map(v) matches Some(m)
    &&& text_at(m, ID@) is Some
    &&& text_at(m, KIND@) matches Some(k)
    &&& (k == INGREDIENT@ && text_at(m, INGREDIENT@) is Some && quantity_at(m, QUANTITY@) is Some) || (k
        == SUB_RECIPE@ && text_at(m, RECIPE@) is Some && amount_in(m) is Some)
}

/// `c` is the recipe line stored as `v`.
pub open spec fn reads_component(v: Value, c: Component) -> bool {
    &&& as_map(v) matches Some(m)
    &&& text_at(m, KIND@) matches Some(k)
    &&& match c {
        Component::Ingredient(u) => {
            &&& k == INGREDIENT@
            &&& text_at(m, ID@) == Some(u.id@)
            &&& text_at(m, INGREDIENT@) == Some(u.ingredient@)
            &&& quantity_at(m, QUANTITY@) == Some(u.quantity)
        },
        Component::SubRecipe(s) => {
            &&& k == SUB_RECIPE@
            &&& text_at(m, ID@) == Some(s.id@)
            &&& text_at(m, RECIPE@) == Some(s.recipe@)
            &&& amount_in(m) == Some(s.amount)
        },
    }
}

/// `v` is how `c` is written.
pub open spec fn writes_component(v: Value, c: Component) -> bool {
    &&& as_map(v) matches Some(m)
    &&& match c {
        Component::Ingredient(u) => {
            &&& text_at(m, KIND@) == Some(INGREDIENT@)
            &&& text_at(m, ID@) == Some(u.id@)
            &&& text_at(m, INGREDIENT@) == Some(u.ingredient@)
            &&& present(m, QUANTITY@) matches Some(q) && writes_quantity(q, u.quantity)
        },
        Component::SubRecipe(s) => {
            &&& text_at(m, KIND@) == Some(SUB_RECIPE@)
            &&& text_at(m, ID@) == Some(s.id@)
            &&& text_at(m, RECIPE@) == Some(s.recipe@)
            &&& match s.amount {
                SubRecipeAmount::Factor(f) => {
                    &&& present(m, OF_YIELD@) is None
                    &&& present(m, FACTOR@) matches Some(x) && as_text(x) == Some(rational_text(f))
                },
                SubRecipeAmount::OfYield(q) => {
                    &&& present(m, FACTOR@) is None
                    &&& present(m, OF_YIELD@) matches Some(x) && writes_quantity(x, q)
                },
            }
        },
    }
}

fn read_component(value: &Value, path: &str) -> (r: Result<Component, StoreError>)
    ensures
        match r {
            Ok(c) => component_ok(*value) && reads_component(*value, c),
            Err(e) => !component_ok(*value) && e is Corrupt,
        },
{
    proof {
        lemma_spellings();
    }
    let m = table(value, path)?;
    let id = text_field(m, ID, path)?;
    let kind = text_field(m, KIND, path)?;
    if kind == INGREDIENT.to_owned() {
        let ingredient = text_field(m, INGREDIENT, path)?;
        let q = quantity(field(m, QUANTITY, path)?, path)?;
        Ok(
            Component::Ingredient(
                IngredientUsage {
                    id: UsageId::from_raw(id.as_str()),
                    ingredient: IngredientId::from_raw(ingredient.as_str()),
                    quantity: q,
                },
            ),
        )
    } else if kind == SUB_RECIPE.to_owned() {
        let amount = match (optional(m, FACTOR), optional(m, OF_YIELD)) {
            (Some(f), None) => SubRecipeAmount::Factor(rational(f, path)?),
            (None, Some(q)) => SubRecipeAmount::OfYield(quantity(q, path)?),
            (Some(_), Some(_)) => {
                return Err(corrupt(path, "sub-recipe carries both a factor and a yield amount"));
            },
            (None, None) => {
                return Err(corrupt(path, "sub-recipe carries no amount"));
            },
        };
        let recipe = text_field(m, RECIPE, path)?;
        Ok(
            Component::SubRecipe(
                SubRecipeUsage {
                    id: UsageId::from_raw(id.as_str()),
                    recipe: RecipeId::from_raw(recipe.as_str()),
                    amount,
                },
            ),
        )
    } else {
        Err(corrupt(path, "unknown component kind"))
    }
}

fn component_value(component: &Component) -> (v: Value)
    ensures
        writes_component(v, *component),
{
    let mut entries: Vec<(String, Value)> = Vec::new();
    match component {
        Component::Ingredient(usage) => {
            entries.push((KIND.to_owned(), text(INGREDIENT)));
            entries.push((ID.to_owned(), text(usage.id.as_str())));
            entries.push((INGREDIENT.to_owned(), text(usage.ingredient.as_str())));
            entries.push((QUANTITY.to_owned(), quantity_value(&usage.quantity)));
            proof {
                lemma_spellings();
                lemma_entry_at(entries@, KIND@, 0);
                lemma_entry_at(entries@, ID@, 1);
                lemma_entry_at(entries@, INGREDIENT@, 2);
                lemma_entry_at(entries@, QUANTITY@, 3);
            }
        },
        Component::SubRecipe(sub) => {
            entries.push((KIND.to_owned(), text(SUB_RECIPE)));
            entries.push((ID.to_owned(), text(sub.id.as_str())));
            entries.push((RECIPE.to_owned(), text(sub.recipe.as_str())));
            match &sub.amount {
                SubRecipeAmount::Factor(f) => {
                    entries.push((FACTOR.to_owned(), rational_value(*f)));
                },
                SubRecipeAmount::OfYield(q) => {
                    entries.push((OF_YIELD.to_owned(), quantity_value(q)));
                },
            }
            proof {
                lemma_spellings();
                lemma_entry_at(entries@, KIND@, 0);
                lemma_entry_at(entries@, ID@, 1);
                lemma_entry_at(entries@, RECIPE@, 2);
                match sub.amount {
                    SubRecipeAmount::Factor(_) => {
                        lemma_entry_at(entries@, FACTOR@, 3);
                        lemma_entry_absent(entries@, OF_YIELD@);
                    },
                    SubRecipeAmount::OfYield(_) => {
                        lemma_entry_at(entries@, OF_YIELD@, 3);
                        lemma_entry_absent(entries@, FACTOR@);
                    },
                }
            }
        },
    }
    Value::Table(entries)
}

/// The reference display `m` holds.
pub open spec fn display_at(m: Seq<(String, Value)>) -> Option<RefDisplay> {
    match present(m, DISPLAY@) {
        Some(d) => display_in(d),
        None => None,
    }
}

/// A segment's value: a run of text, or a reference to one of the recipe's
/// usages with how it renders.
pub open spec fn segment_ok(v: Value) -> bool {
    &&& as_map(v) matches Some(m)
    &&& text_at(m, KIND@) matches Some(k)
    &&& (k == TEXT@ && text_at(m, TEXT@) is Some) || (k == INGREDIENT@ && text_at(m, USAGE@) is Some
        && display_at(m) is Some)
}

/// `s` is the segment stored as `v`.
pub open spec fn reads_segment(v: Value, s: Segment) -> bool {
    &&& as_map(v) matches Some(m)
    &&& text_at(m, KIND@) matches Some(k)
    &&& match s {
        Segment::Text(t) => k == TEXT@ && text_at(m, TEXT@) == Some(t@),
        Segment::Ingredient { usage, display } => k == INGREDIENT@ && text_at(m, USAGE@) == Some(usage@)
            && display_at(m) == Some(display),
    }
}

/// `v` is how `s` is written.
pub open spec fn writes_segment(v: Value, s: Segment) -> bool {
    &&& as_map(v) matches Some(m)
    &&& match s {
        Segment::Text(t) => text_at(m, KIND@) == Some(TEXT@) && text_at(m, TEXT@) == Some(t@),
        Segment::Ingredient { usage, display } => text_at(m, KIND@) == Some(INGREDIENT@) && text_at(m, USAGE@)
            == Some(usage@) && text_at(m, DISPLAY@) == Some(display_tag_text(display)),
    }
}

fn read_segment(value: &Value, path: &str) -> (r: Result<Segment, StoreError>)
    ensures
        match r {
            Ok(s) => segment_ok(*value) && reads_segment(*value, s),
            Err(e) => !segment_ok(*value) && e is Corrupt,
        },
{
    proof {
        lemma_spellings();
    }
    let m = table(value, path)?;
    let kind = text_field(m, KIND, path)?;
    if kind == TEXT.to_owned() {
        Ok(Segment::Text(text_field(m, TEXT, path)?))
    } else if kind == INGREDIENT.to_owned() {
        let usage = text_field(m, USAGE, path)?;
        let d = display(field(m, DISPLAY, path)?, path)?;
        Ok(Segment::Ingredient { usage: UsageId::from_raw(usage.as_str()), display: d })
    } else {
        Err(corrupt(path, "unknown segment kind"))
    }
}

fn segment_value(segment: &Segment) -> (v: Value)
    ensures
        writes_segment(v, *segment),
{
    let mut entries: Vec<(String, Value)> = Vec::new();
    match segment {
        Segment::Text(t) => {
            entries.push((KIND.to_owned(), text(TEXT)));
            entries.push((TEXT.to_owned(), text(t.as_str())));
            proof {
                lemma_spellings();
                lemma_entry_at(entries@, KIND@, 0);
                lemma_entry_at(entries@, TEXT@, 1);
            }
        },
        Segment::Ingredient { usage, display } => {
            entries.push((KIND.to_owned(), text(INGREDIENT)));
            entries.push((USAGE.to_owned(), text(usage.as_str())));
            entries.push((DISPLAY.to_owned(), text(display_tag(*display))));
            proof {
                lemma_spellings();
                lemma_entry_at(entries@, KIND@, 0);
                lemma_entry_at(entries@, USAGE@, 1);
                lemma_entry_at(entries@, DISPLAY@, 2);
            }
        },
    }
    Value::Table(entries)
}

/// The segments list of a step's value.
pub open spec fn segments_in(v: Value) -> Option<Seq<Value>> {
    match as_map(v) {
        Some(m) => match present(m, SEGMENTS@) {
            Some(l) => as_list(l),
            None => None,
        },
        None => None,
    }
}

/// Every item of `l` is a well-formed segment.
pub open spec fn segments_ok(l: Seq<Value>) -> bool {
    forall|i: int| 0 <= i < l.len() ==> #[trigger] segment_ok(l[i])
}

/// A step's value: a list of segments.
pub open spec fn step_ok(v: Value) -> bool {
    match segments_in(v) {
        Some(l) => segments_ok(l),
        None => false,
    }
}

/// `st` is the step stored as `v`.
pub open spec fn reads_step(v: Value, st: Step) -> bool {
    segments_in(v) matches Some(l) && st.segments@.len() == l.len() && forall|i: int|
        0 <= i < l.len() ==> #[trigger] reads_segment(l[i], st.segments@[i])
}

/// `v` is how `st` is written.
pub open spec fn writes_step(v: Value, st: Step) -> bool {
    segments_in(v) matches Some(l) && st.segments@.len() == l.len() && forall|i: int|
        0 <= i < l.len() ==> #[trigger] writes_segment(l[i], st.segments@[i])
}

fn read_step(value: &Value, path: &str) -> (r: Result<Step, StoreError>)
    ensures
        match r {
            Ok(st) => step_ok(*value) && reads_step(*value, st),
            Err(e) => !step_ok(*value) && e is Corrupt,
        },
{
    let m = table(value, path)?;
    let l = list(field(m, SEGMENTS, path)?, path)?;
    let mut segments: Vec<Segment> = Vec::new();
    let mut i: usize = 0;
    while i < l.len()
        invariant
            i <= l@.len(),
            segments@.len() == i,
            segments_in(*value) == Some(l@),
            forall|j: int| 0 <= j < i ==> #[trigger] segment_ok(l@[j]),
                    forall|j: int| 0 <= j < i ==> #[trigger] reads_segment(l@[j], segments@[j]),
        decreases l@.len() - i,
    {
        let s = match read_segment(&l[i], path) {
            Ok(s) => s,
            Err(e) => {
                proof {
                    assert(!segments_ok(l@));
                }
                return Err(e);
            },
        };
        segments.push(s);
        i = i + 1;
    }
    Ok(Step { segments })
}

fn step_value(step: &Step) -> (v: Value)
    ensures
        writes_step(v, *step),
{
    let mut items: Vec<Value> = Vec::new();
    let mut i: usize = 0;
    while i < step.segments.len()
        invariant
            i <= step.segments@.len(),
            items@.len() == i,
            forall|j: int| 0 <= j < i ==> #[trigger] writes_segment(items@[j], step.segments@[j]),
        decreases step.segments@.len() - i,
    {
        items.push(segment_value(&step.segments[i]));
        i = i + 1;
    }
    let mut entries: Vec<(String, Value)> = Vec::new();
    entries.push((SEGMENTS.to_owned(), Value::List(items)));
    proof {
        lemma_entry_at(entries@, SEGMENTS@, 0);
    }
    Value::Table(entries)
}

/// The items of an optional list field; none when the key is absent.
pub open spec fn items_at(m: Seq<(String, Value)>, key: Seq<char>) -> Option<Seq<Value>> {
    match present(m, key) {
        Some(l) => as_list(l),
        None => Some(Seq::empty()),
    }
}

/// Every item of `cs` is a well-formed recipe line.
pub open spec fn components_ok(cs: Seq<Value>) -> bool {
    forall|i: int| 0 <= i < cs.len() ==> #[trigger] component_ok(cs[i])
}

/// Every item of `ss` is a well-formed step.
pub open spec fn steps_ok(ss: Seq<Value>) -> bool {
    forall|i: int| 0 <= i < ss.len() ==> #[trigger] step_ok(ss[i])
}

/// A recipe's fields: a name, a serving count, an optional yield, and lists
/// of lines and steps that are each well formed.
pub open spec fn recipe_fields_ok(m: Seq<(String, Value)>) -> bool {
    &&& text_at(m, NAME@) is Some
    &&& servings_at(m, SERVINGS@) is Some
    &&& (present(m, YIELDS@) matches Some(y) ==> quantity_in(y) is Some)
    &&& match items_at(m, COMPONENTS@) {
        Some(cs) => components_ok(cs),
        None => false,
    }
    &&& match items_at(m, STEPS@) {
        Some(ss) => steps_ok(ss),
        None => false,
    }
}

/// A recipe's value: a map of well-formed fields.
pub open spec fn recipe_ok(v: Value) -> bool {
    match as_map(v) {
        Some(m) => recipe_fields_ok(m),
        None => false,
    }
}

/// `r` is the recipe stored as `v` under `id`.
pub open spec fn reads_recipe(id: Seq<char>, v: Value, r: Recipe) -> bool {
    &&& r.id@ == id
    &&& as_map(v) matches Some(m)
    &&& text_at(m, NAME@) == Some(r.name@)
    &&& servings_at(m, SERVINGS@) == Some(r.servings.count())
    &&& r.yields == match present(m, YIELDS@) {
        Some(y) => quantity_in(y),
        None => None,
    }
    &&& items_at(m, COMPONENTS@) matches Some(cs) && r.components@.len() == cs.len() && forall|i: int|
        0 <= i < cs.len() ==> #[trigger] reads_component(cs[i], r.components@[i])
    &&& items_at(m, STEPS@) matches Some(ss) && r.steps@.len() == ss.len() && forall|i: int|
        0 <= i < ss.len() ==> #[trigger] reads_step(ss[i], r.steps@[i])
}

/// `v` is how `r` is written.
pub open spec fn writes_recipe(v: Value, r: Recipe) -> bool {
    &&& as_map(v) matches Some(m)
    &&& text_at(m, NAME@) == Some(r.name@)
    &&& int_at(m, SERVINGS@) == Some(r.servings.count() as i64)
    &&& match r.yields {
        Some(q) => present(m, YIELDS@) matches Some(y) && writes_quantity(y, q),
        None => present(m, YIELDS@) is None,
    }
    &&& present(m, COMPONENTS@) matches Some(c) && as_list(c) matches Some(cs) && r.components@.len()
        == cs.len() && forall|i: int| 0 <= i < cs.len() ==> #[trigger] writes_component(cs[i], r.components@[i])
    &&& present(m, STEPS@) matches Some(s) && as_list(s) matches Some(ss) && r.steps@.len() == ss.len()
        && forall|i: int| 0 <= i < ss.len() ==> #[trigger] writes_step(ss[i], r.steps@[i])
}

pub fn read_recipe(id: &str, value: &Value) -> (r: Result<Recipe, StoreError>)
    ensures
        match r {
            Ok(x) => recipe_ok(*value) && reads_recipe(id@, *value, x),
            Err(e) => !recipe_ok(*value) && e is Corrupt,
        },
{
    let path = joined("recipes.", id);
    let m = table(value, path.as_str())?;
    let mut components: Vec<Component> = Vec::new();
    match optional(m, COMPONENTS) {
        Some(v) => {
            let cs = list(v, path.as_str())?;
            let mut i: usize = 0;
            while i < cs.len()
                invariant
                    i <= cs@.len(),
                    components@.len() == i,
                    items_at(m@, COMPONENTS@) == Some(cs@),
                    as_map(*value) == Some(m@),
                    forall|j: int| 0 <= j < i ==> #[trigger] component_ok(cs@[j]),
                    forall|j: int| 0 <= j < i ==> #[trigger] reads_component(cs@[j], components@[j]),
                decreases cs@.len() - i,
            {
                let c = match read_component(&cs[i], path.as_str()) {
                    Ok(c) => c,
                    Err(e) => {
                        proof {
                            assert(!components_ok(cs@));
                            assert(!recipe_fields_ok(m@));
                        }
                        return Err(e);
                    },
                };
                components.push(c);
                i = i + 1;
            }
        },
        None => {},
    }
    let mut steps: Vec<Step> = Vec::new();
    match optional(m, STEPS) {
        Some(v) => {
            let ss = list(v, path.as_str())?;
            let mut i: usize = 0;
            while i < ss.len()
                invariant
                    i <= ss@.len(),
                    steps@.len() == i,
                    items_at(m@, STEPS@) == Some(ss@),
                    as_map(*value) == Some(m@),
                    forall|j: int| 0 <= j < i ==> #[trigger] step_ok(ss@[j]),
                    forall|j: int| 0 <= j < i ==> #[trigger] reads_step(ss@[j], steps@[j]),
                decreases ss@.len() - i,
            {
                let st = match read_step(&ss[i], path.as_str()) {
                    Ok(st) => st,
                    Err(e) => {
                        proof {
                            assert(!steps_ok(ss@));
                            assert(!recipe_fields_ok(m@));
                        }
                        return Err(e);
                    },
                };
                steps.push(st);
                i = i + 1;
            }
        },
        None => {},
    }
    let name = text_field(m, NAME, path.as_str())?;
    let count = servings(field(m, SERVINGS, path.as_str())?, path.as_str())?;
    let yields = match optional(m, YIELDS) {
        Some(y) => Some(quantity(y, path.as_str())?),
        None => None,
    };
    Ok(
        Recipe {
            id: RecipeId::from_raw(id),
            name,
            servings: count,
            yields,
            components,
            steps,
        },
    )
}

pub fn recipe_value(recipe: &Recipe) -> (v: Value)
    ensures
        writes_recipe(v, *recipe),
{
    let mut cs: Vec<Value> = Vec::new();
    let mut i: usize = 0;
    while i < recipe.components.len()
        invariant
            i <= recipe.components@.len(),
            cs@.len() == i,
            forall|j: int| 0 <= j < i ==> #[trigger] writes_component(cs@[j], recipe.components@[j]),
        decreases recipe.components@.len() - i,
    {
        cs.push(component_value(&recipe.components[i]));
        i = i + 1;
    }
    let mut ss: Vec<Value> = Vec::new();
    let mut i: usize = 0;
    while i < recipe.steps.len()
        invariant
            i <= recipe.steps@.len(),
            ss@.len() == i,
            forall|j: int| 0 <= j < i ==> #[trigger] writes_step(ss@[j], recipe.steps@[j]),
        decreases recipe.steps@.len() - i,
    {
        ss.push(step_value(&recipe.steps[i]));
        i = i + 1;
    }
    let yields = match &recipe.yields {
        Some(q) => quantity_value(q),
        None => Value::Null,
    };
    let mut entries: Vec<(String, Value)> = Vec::new();
    entries.push((NAME.to_owned(), text(recipe.name.as_str())));
    entries.push((SERVINGS.to_owned(), servings_value(recipe.servings)));
    entries.push((YIELDS.to_owned(), yields));
    entries.push((COMPONENTS.to_owned(), Value::List(cs)));
    entries.push((STEPS.to_owned(), Value::List(ss)));
    proof {
        lemma_spellings();
        lemma_entry_at(entries@, NAME@, 0);
        lemma_entry_at(entries@, SERVINGS@, 1);
        lemma_entry_at(entries@, YIELDS@, 2);
        lemma_entry_at(entries@, COMPONENTS@, 3);
        lemma_entry_at(entries@, STEPS@, 4);
    }
    Value::Table(entries)
}

// --- the shopping list ------------------------------------------------------

/// The quantity `m` holds under `key`.
pub open spec fn quantity_at(m: Seq<(String, Value)>, key: Seq<char>) -> Option<Quantity> {
    match present(m, key) {
        Some(q) => quantity_in(q),
        None => None,
    }
}

/// The serving count `m` holds under `key`.
pub open spec fn servings_at(m: Seq<(String, Value)>, key: Seq<char>) -> Option<int> {
    match present(m, key) {
        Some(x) => servings_in(x),
        None => None,
    }
}

/// A list entry's value: a recipe with a serving count, or an ingredient
/// with a quantity, and who added it when.
pub open spec fn list_entry_ok(v: Value) -> bool {
    &&& as_map(v) matches Some(m)
    &&& text_at(m, KIND@) matches Some(k)
    &&& (k == RECIPE@ && text_at(m, RECIPE@) is Some && servings_at(m, SERVINGS@) is Some) || (k
        == INGREDIENT@ && text_at(m, INGREDIENT@) is Some && quantity_at(m, QUANTITY@) is Some)
    &&& text_at(m, ID@) is Some
    &&& text_at(m, ADDED_BY@) is Some
    &&& int_at(m, ADDED_AT@) is Some
}

/// `e` is the list entry stored as `v`.
pub open spec fn reads_list_entry(v: Value, e: ListEntry) -> bool {
    &&& as_map(v) matches Some(m)
    &&& text_at(m, KIND@) matches Some(k)
    &&& match e.item {
        ListItem::Recipe { recipe, servings } => k == RECIPE@ && text_at(m, RECIPE@) == Some(recipe@)
            && servings_at(m, SERVINGS@) == Some(servings.count()),
        ListItem::Ingredient { ingredient, quantity } => k == INGREDIENT@ && text_at(m, INGREDIENT@)
            == Some(ingredient@) && quantity_at(m, QUANTITY@) == Some(quantity),
    }
    &&& text_at(m, ID@) == Some(e.id@)
    &&& text_at(m, ADDED_BY@) == Some(e.added_by@)
    &&& int_at(m, ADDED_AT@) == Some(e.added_at.0)
}

/// `v` is how `e` is written.
pub open spec fn writes_list_entry(v: Value, e: ListEntry) -> bool {
    &&& as_map(v) matches Some(m)
    &&& text_at(m, ID@) == Some(e.id@)
    &&& text_at(m, ADDED_BY@) == Some(e.added_by@)
    &&& int_at(m, ADDED_AT@) == Some(e.added_at.0)
    &&& match e.item {
        ListItem::Recipe { recipe, servings } => text_at(m, KIND@) == Some(RECIPE@) && text_at(m, RECIPE@)
            == Some(recipe@) && int_at(m, SERVINGS@) == Some(servings.count() as i64),
        ListItem::Ingredient { ingredient, quantity } => {
            &&& text_at(m, KIND@) == Some(INGREDIENT@)
            &&& text_at(m, INGREDIENT@) == Some(ingredient@)
            &&& present(m, QUANTITY@) matches Some(q) && writes_quantity(q, quantity)
        },
    }
}

pub fn read_list_entry(value: &Value, path: &str) -> (r: Result<ListEntry, StoreError>)
    ensures
        match r {
            Ok(e) => list_entry_ok(*value) && reads_list_entry(*value, e),
            Err(e) => !list_entry_ok(*value) && e is Corrupt,
        },
{
    proof {
        lemma_spellings();
    }
    let m = table(value, path)?;
    let kind = text_field(m, KIND, path)?;
    let item = if kind == RECIPE.to_owned() {
        let recipe = text_field(m, RECIPE, path)?;
        let count = servings(field(m, SERVINGS, path)?, path)?;
        ListItem::Recipe { recipe: RecipeId::from_raw(recipe.as_str()), servings: count }
    } else if kind == INGREDIENT.to_owned() {
        let ingredient = text_field(m, INGREDIENT, path)?;
        let q = quantity(field(m, QUANTITY, path)?, path)?;
        ListItem::Ingredient { ingredient: IngredientId::from_raw(ingredient.as_str()), quantity: q }
    } else {
        return Err(corrupt(path, "unknown list entry kind"));
    };
    let id = text_field(m, ID, path)?;
    let added_by = text_field(m, ADDED_BY, path)?;
    let added_at = int_field(m, ADDED_AT, path)?;
    Ok(
        ListEntry {
            id: ListEntryId::from_raw(id.as_str()),
            item,
            added_by: UserId::from_raw(added_by.as_str()),
            added_at: Timestamp(added_at),
        },
    )
}

pub fn list_entry_value(entry: &ListEntry) -> (v: Value)
    ensures
        writes_list_entry(v, *entry),
{
    let mut entries: Vec<(String, Value)> = Vec::new();
    entries.push((ID.to_owned(), text(entry.id.as_str())));
    entries.push((ADDED_BY.to_owned(), text(entry.added_by.as_str())));
    entries.push((ADDED_AT.to_owned(), timestamp_value(entry.added_at)));
    match &entry.item {
        ListItem::Recipe { recipe, servings } => {
            entries.push((KIND.to_owned(), text(RECIPE)));
            entries.push((RECIPE.to_owned(), text(recipe.as_str())));
            entries.push((SERVINGS.to_owned(), servings_value(*servings)));
            proof {
                lemma_spellings();
                lemma_entry_at(entries@, KIND@, 3);
                lemma_entry_at(entries@, RECIPE@, 4);
                lemma_entry_at(entries@, SERVINGS@, 5);
            }
        },
        ListItem::Ingredient { ingredient, quantity } => {
            entries.push((KIND.to_owned(), text(INGREDIENT)));
            entries.push((INGREDIENT.to_owned(), text(ingredient.as_str())));
            entries.push((QUANTITY.to_owned(), quantity_value(quantity)));
            proof {
                lemma_spellings();
                lemma_entry_at(entries@, KIND@, 3);
                lemma_entry_at(entries@, INGREDIENT@, 4);
                lemma_entry_at(entries@, QUANTITY@, 5);
            }
        },
    }
    proof {
        lemma_spellings();
        lemma_entry_at(entries@, ID@, 0);
        lemma_entry_at(entries@, ADDED_BY@, 1);
        lemma_entry_at(entries@, ADDED_AT@, 2);
    }
    Value::Table(entries)
}

// --- users and devices ------------------------------------------------------

/// A user's value holds a name.
pub open spec fn user_ok(v: Value) -> bool {
    as_map(v) matches Some(m) && text_at(m, NAME@) is Some
}

/// `u` is the user stored as `v` under `id`.
pub open spec fn reads_user(id: Seq<char>, v: Value, u: User) -> bool {
    &&& u.id@ == id
    &&& as_map(v) matches Some(m) && text_at(m, NAME@) == Some(u.name@)
}

/// `v` is how `u` is written.
pub open spec fn writes_user(v: Value, u: User) -> bool {
    as_map(v) matches Some(m) && text_at(m, NAME@) == Some(u.name@)
}

pub fn read_user(id: &str, value: &Value) -> (r: Result<User, StoreError>)
    ensures
        match r {
            Ok(u) => user_ok(*value) && reads_user(id@, *value, u),
            Err(e) => !user_ok(*value) && e is Corrupt,
        },
{
    let path = joined("users.", id);
    let m = table(value, path.as_str())?;
    let name = text_field(m, NAME, path.as_str())?;
    Ok(User { id: UserId::from_raw(id), name })
}

pub fn user_value(user: &User) -> (v: Value)
    ensures
        writes_user(v, *user),
{
    let mut entries: Vec<(String, Value)> = Vec::new();
    entries.push((NAME.to_owned(), text(user.name.as_str())));
    proof {
        lemma_entry_at(entries@, NAME@, 0);
    }
    Value::Table(entries)
}

/// A device's value holds an owner, a name and when it was paired.
pub open spec fn device_ok(v: Value) -> bool {
    &&& as_map(v) matches Some(m)
    &&& text_at(m, OWNER@) is Some
    &&& text_at(m, NAME@) is Some
    &&& int_at(m, PAIRED_AT@) is Some
}

/// `d` is the device stored as `v` under `id`.
pub open spec fn reads_device(id: Seq<char>, v: Value, d: Device) -> bool {
    &&& d.id@ == id
    &&& as_map(v) matches Some(m)
    &&& text_at(m, OWNER@) == Some(d.owner@)
    &&& text_at(m, NAME@) == Some(d.name@)
    &&& int_at(m, PAIRED_AT@) == Some(d.paired_at.0)
}

/// `v` is how `d` is written.
pub open spec fn writes_device(v: Value, d: Device) -> bool {
    &&& as_map(v) matches Some(m)
    &&& text_at(m, OWNER@) == Some(d.owner@)
    &&& text_at(m, NAME@) == Some(d.name@)
    &&& int_at(m, PAIRED_AT@) == Some(d.paired_at.0)
}

pub fn read_device(id: &str, value: &Value) -> (r: Result<Device, StoreError>)
    ensures
        match r {
            Ok(d) => device_ok(*value) && reads_device(id@, *value, d),
            Err(e) => !device_ok(*value) && e is Corrupt,
        },
{
    let path = joined("devices.", id);
    let m = table(value, path.as_str())?;
    let owner = text_field(m, OWNER, path.as_str())?;
    let name = text_field(m, NAME, path.as_str())?;
    let paired_at = int_field(m, PAIRED_AT, path.as_str())?;
    Ok(
        Device {
            id: DeviceId::from_raw(id),
            owner: UserId::from_raw(owner.as_str()),
            name,
            paired_at: Timestamp(paired_at),
        },
    )
}

pub fn device_value(device: &Device) -> (v: Value)
    ensures
        writes_device(v, *device),
{
    let mut entries: Vec<(String, Value)> = Vec::new();
    entries.push((NAME.to_owned(), text(device.name.as_str())));
    entries.push((OWNER.to_owned(), text(device.owner.as_str())));
    entries.push((PAIRED_AT.to_owned(), timestamp_value(device.paired_at)));
    proof {
        lemma_spellings();
        lemma_entry_at(entries@, NAME@, 0);
        lemma_entry_at(entries@, OWNER@, 1);
        lemma_entry_at(entries@, PAIRED_AT@, 2);
    }
    Value::Table(entries)
}

// --- the check overlay ------------------------------------------------------

/// An explicit action's value: checked, with who and when, or unchecked.
pub open spec fn explicit_ok(v: Value) -> bool {
    &&& as_map(v) matches Some(m)
    &&& text_at(m, STATE@) matches Some(s)
    &&& (s == CHECKED@ && text_at(m, BY@) is Some && int_at(m, AT@) is Some) || s == UNCHECKED@
}

/// `x` is the explicit action stored as `v`.
pub open spec fn reads_explicit(v: Value, x: Explicit) -> bool {
    &&& as_map(v) matches Some(m)
    &&& text_at(m, STATE@) matches Some(s)
    &&& match x {
        Explicit::Checked { by, at } => s == CHECKED@ && text_at(m, BY@) == Some(by@) && int_at(m, AT@)
            == Some(at.0),
        Explicit::Unchecked => s == UNCHECKED@,
    }
}

/// `v` is how `x` is written. An uncheck is stored, not left absent: an
/// absent entry falls back to the derived default, which for a staple would
/// silently re-check what the user just unchecked.
pub open spec fn writes_explicit(v: Value, x: Explicit) -> bool {
    &&& as_map(v) matches Some(m)
    &&& match x {
        Explicit::Checked { by, at } => text_at(m, STATE@) == Some(CHECKED@) && text_at(m, BY@) == Some(
            by@,
        ) && int_at(m, AT@) == Some(at.0),
        Explicit::Unchecked => text_at(m, STATE@) == Some(UNCHECKED@),
    }
}

pub fn read_explicit(value: &Value, path: &str) -> (r: Result<Explicit, StoreError>)
    ensures
        match r {
            Ok(x) => explicit_ok(*value) && reads_explicit(*value, x),
            Err(e) => !explicit_ok(*value) && e is Corrupt,
        },
{
    let m = table(value, path)?;
    let state = text_field(m, STATE, path)?;
    proof {
        lemma_spellings();
    }
    if state == CHECKED.to_owned() {
        let by = text_field(m, BY, path)?;
        let at = int_field(m, AT, path)?;
        Ok(Explicit::Checked { by: UserId::from_raw(by.as_str()), at: Timestamp(at) })
    } else if state == UNCHECKED.to_owned() {
        Ok(Explicit::Unchecked)
    } else {
        Err(corrupt(path, "unknown overlay state"))
    }
}

pub fn explicit_value(x: &Explicit) -> (v: Value)
    ensures
        writes_explicit(v, *x),
{
    let mut entries: Vec<(String, Value)> = Vec::new();
    match x {
        Explicit::Checked { by, at } => {
            entries.push((STATE.to_owned(), text(CHECKED)));
            entries.push((BY.to_owned(), text(by.as_str())));
            entries.push((AT.to_owned(), timestamp_value(*at)));
            proof {
                lemma_spellings();
                lemma_entry_at(entries@, STATE@, 0);
                lemma_entry_at(entries@, BY@, 1);
                lemma_entry_at(entries@, AT@, 2);
            }
        },
        Explicit::Unchecked => {
            entries.push((STATE.to_owned(), text(UNCHECKED)));
            proof {
                lemma_entry_at(entries@, STATE@, 0);
            }
        },
    }
    Value::Table(entries)
}

// --- the event log ----------------------------------------------------------

/// The action a tag names.
pub open spec fn action_named(t: Seq<char>) -> Option<Action> {
    if t == EDITED@ {
        Some(Action::Edited)
    } else if t == DELETED@ {
        Some(Action::Deleted)
    } else {
        None
    }
}

/// The tag of an action.
pub open spec fn action_tag(a: Action) -> Seq<char> {
    match a {
        Action::Edited => EDITED@,
        Action::Deleted => DELETED@,
    }
}

/// Whether `t` names a kind of subject.
pub open spec fn subject_kind_known(t: Seq<char>) -> bool {
    t == RECIPE@ || t == INGREDIENT@ || t == LIST_ENTRY@
}

/// `s` is the subject of kind `kind` with id `id`.
pub open spec fn subject_is(kind: Seq<char>, id: Seq<char>, s: Subject) -> bool {
    match s {
        Subject::Recipe(r) => kind == RECIPE@ && r@ == id,
        Subject::Ingredient(i) => kind == INGREDIENT@ && i@ == id,
        Subject::ListEntry(e) => kind == LIST_ENTRY@ && e@ == id,
    }
}

/// The kind tag and the id of a subject.
pub open spec fn subject_parts(s: Subject) -> (Seq<char>, Seq<char>) {
    match s {
        Subject::Recipe(r) => (RECIPE@, r@),
        Subject::Ingredient(i) => (INGREDIENT@, i@),
        Subject::ListEntry(e) => (LIST_ENTRY@, e@),
    }
}

/// An event's value: a known action and subject kind, and every field.
pub open spec fn event_ok(v: Value) -> bool {
    &&& as_map(v) matches Some(m)
    &&& text_at(m, ACTION@) matches Some(a) && action_named(a) is Some
    &&& text_at(m, SUBJECT_ID@) is Some
    &&& text_at(m, SUBJECT_KIND@) matches Some(k) && subject_kind_known(k)
    &&& int_at(m, AT@) is Some
    &&& text_at(m, BY@) is Some
    &&& text_at(m, LABEL@) is Some
}

/// `e` is the event stored as `v`.
pub open spec fn reads_event(v: Value, e: Event) -> bool {
    &&& as_map(v) matches Some(m)
    &&& text_at(m, ACTION@) matches Some(a) && action_named(a) == Some(e.action)
    &&& text_at(m, SUBJECT_KIND@) matches Some(k) && text_at(m, SUBJECT_ID@) matches Some(id)
        && subject_is(k, id, e.subject)
    &&& int_at(m, AT@) == Some(e.at.0)
    &&& text_at(m, BY@) == Some(e.by@)
    &&& text_at(m, LABEL@) == Some(e.label@)
}

/// `v` is how `e` is written.
pub open spec fn writes_event(v: Value, e: Event) -> bool {
    &&& as_map(v) matches Some(m)
    &&& int_at(m, AT@) == Some(e.at.0)
    &&& text_at(m, BY@) == Some(e.by@)
    &&& text_at(m, ACTION@) == Some(action_tag(e.action))
    &&& text_at(m, SUBJECT_KIND@) == Some(subject_parts(e.subject).0)
    &&& text_at(m, SUBJECT_ID@) == Some(subject_parts(e.subject).1)
    &&& text_at(m, LABEL@) == Some(e.label@)
}

pub fn read_event(value: &Value, path: &str) -> (r: Result<Event, StoreError>)
    ensures
        match r {
            Ok(e) => event_ok(*value) && reads_event(*value, e),
            Err(e) => !event_ok(*value) && e is Corrupt,
        },
{
    proof {
        lemma_spellings();
    }
    let m = table(value, path)?;
    let action_text = text_field(m, ACTION, path)?;
    let action = if action_text == EDITED.to_owned() {
        Action::Edited
    } else if action_text == DELETED.to_owned() {
        Action::Deleted
    } else {
        return Err(corrupt(path, "unknown action"));
    };
    let id = text_field(m, SUBJECT_ID, path)?;
    let kind = text_field(m, SUBJECT_KIND, path)?;
    let subject = if kind == RECIPE.to_owned() {
        Subject::Recipe(RecipeId::from_raw(id.as_str()))
    } else if kind == INGREDIENT.to_owned() {
        Subject::Ingredient(IngredientId::from_raw(id.as_str()))
    } else if kind == LIST_ENTRY.to_owned() {
        Subject::ListEntry(ListEntryId::from_raw(id.as_str()))
    } else {
        return Err(corrupt(path, "unknown subject kind"));
    };
    let at = int_field(m, AT, path)?;
    let by = text_field(m, BY, path)?;
    let label = text_field(m, LABEL, path)?;
    Ok(Event { at: Timestamp(at), by: UserId::from_raw(by.as_str()), action, subject, label })
}

pub fn event_value(event: &Event) -> (v: Value)
    ensures
        writes_event(v, *event),
{
    let (kind, id): (&str, &str) = match &event.subject {
        Subject::Recipe(r) => (RECIPE, r.as_str()),
        Subject::Ingredient(i) => (INGREDIENT, i.as_str()),
        Subject::ListEntry(e) => (LIST_ENTRY, e.as_str()),
    };
    let action: &str = match event.action {
        Action::Edited => EDITED,
        Action::Deleted => DELETED,
    };
    let mut entries: Vec<(String, Value)> = Vec::new();
    entries.push((AT.to_owned(), timestamp_value(event.at)));
    entries.push((BY.to_owned(), text(event.by.as_str())));
    entries.push((ACTION.to_owned(), text(action)));
    entries.push((SUBJECT_KIND.to_owned(), text(kind)));
    entries.push((SUBJECT_ID.to_owned(), text(id)));
    entries.push((LABEL.to_owned(), text(event.label.as_str())));
    proof {
        lemma_spellings();
        lemma_entry_at(entries@, AT@, 0);
        lemma_entry_at(entries@, BY@, 1);
        lemma_entry_at(entries@, ACTION@, 2);
        lemma_entry_at(entries@, SUBJECT_KIND@, 3);
        lemma_entry_at(entries@, SUBJECT_ID@, 4);
        lemma_entry_at(entries@, LABEL@, 5);
    }
    Value::Table(entries)
}

// --- what a write reads back as -------------------------------------------

/// `b` is the number `a` is, where there is one.
pub open spec fn same_number(a: Option<Rational>, b: Option<Rational>) -> bool {
    match (a, b) {
        (Some(x), Some(y)) => denotes(y, x.num(), x.den()),
        (None, None) => true,
        _ => false,
    }
}

/// `b` is the amount `a` is, of the same unit.
pub open spec fn same_quantity(a: Quantity, b: Quantity) -> bool {
    a.unit == b.unit && denotes(b.value, a.value.num(), a.value.den())
}

/// A user reads back as the user written.
pub proof fn law_users_round_trip(v: Value, u: User, back: User)
    requires
        writes_user(v, u),
        reads_user(u.id@, v, back),
    ensures
        user_ok(v),
        back.id@ == u.id@ && back.name@ == u.name@,
{
}

/// A device reads back as the device written.
pub proof fn law_devices_round_trip(v: Value, d: Device, back: Device)
    requires
        writes_device(v, d),
        reads_device(d.id@, v, back),
    ensures
        device_ok(v),
        back.id@ == d.id@ && back.owner@ == d.owner@ && back.name@ == d.name@ && back.paired_at == d.paired_at,
{
}

/// An explicit action reads back as the action written; an uncheck in
/// particular stays an uncheck rather than falling back to a default.
pub proof fn law_explicit_round_trip(v: Value, x: Explicit, back: Explicit)
    requires
        writes_explicit(v, x),
        reads_explicit(v, back),
    ensures
        explicit_ok(v),
        match (x, back) {
            (Explicit::Checked { by, at }, Explicit::Checked { by: b2, at: a2 }) => by@ == b2@ && at == a2,
            (Explicit::Unchecked, Explicit::Unchecked) => true,
            _ => false,
        },
{
    lemma_spellings();
}

/// An event reads back as the event written.
pub proof fn law_events_round_trip(v: Value, e: Event, back: Event)
    requires
        writes_event(v, e),
        reads_event(v, back),
    ensures
        event_ok(v),
        back.at == e.at && back.by@ == e.by@ && back.action == e.action && back.subject.same_as(e.subject)
            && back.label@ == e.label@,
{
    lemma_spellings();
}

/// An ingredient reads back as the ingredient written, its exact numbers
/// the same numbers.
pub proof fn law_ingredients_round_trip(v: Value, i: Ingredient, back: Ingredient)
    requires
        i.density matches Some(d) ==> d.in_range(),
        i.unit_weight matches Some(w) ==> w.in_range(),
        writes_ingredient(v, i),
        reads_ingredient(i.id@, v, back),
    ensures
        ingredient_ok(v),
        back.id@ == i.id@,
        back.name@ == i.name@,
        views(back.aliases@) == views(i.aliases@),
        back.aisle == i.aisle,
        back.staple == i.staple,
        same_number(i.density, back.density),
        same_number(i.unit_weight, back.unit_weight),
{
    let m = as_map(v)->0;
    law_aisle_tags_round_trip(i.aisle);
    if let Some(d) = i.density {
        law_rationals_round_trip(d);
    }
    if let Some(w) = i.unit_weight {
        law_rationals_round_trip(w);
    }
    let l = as_list(present(m, ALIASES@)->0)->0;
    assert(views(i.aliases@) =~= l.map_values(|x: Value| as_text(x)->0));
}

/// A list entry reads back as the entry written.
pub proof fn law_list_entries_round_trip(v: Value, e: ListEntry, back: ListEntry)
    requires
        e.item matches ListItem::Ingredient { quantity, .. } ==> quantity.value.in_range(),
        e.item matches ListItem::Recipe { servings, .. } ==> servings.count() > 0,
        writes_list_entry(v, e),
        reads_list_entry(v, back),
    ensures
        list_entry_ok(v),
        back.id@ == e.id@ && back.added_by@ == e.added_by@ && back.added_at == e.added_at,
        match (e.item, back.item) {
            (ListItem::Recipe { recipe, servings }, ListItem::Recipe { recipe: r2, servings: s2 }) => recipe@
                == r2@ && servings.count() == s2.count(),
            (
                ListItem::Ingredient { ingredient, quantity },
                ListItem::Ingredient { ingredient: i2, quantity: q2 },
            ) => ingredient@ == i2@ && same_quantity(quantity, q2),
            _ => false,
        },
{
    lemma_spellings();
    match e.item {
        ListItem::Ingredient { quantity, .. } => {
            let m = as_map(v)->0;
            law_quantities_round_trip(present(m, QUANTITY@)->0, quantity);
        },
        ListItem::Recipe { servings, .. } => {
            servings.lemma_count_fits();
        },
    }
}

/// `b` is the segment `a` is.
pub open spec fn same_segment(a: Segment, b: Segment) -> bool {
    match (a, b) {
        (Segment::Text(x), Segment::Text(y)) => x@ == y@,
        (Segment::Ingredient { usage: u1, display: d1 }, Segment::Ingredient { usage: u2, display: d2 }) => u1@
            == u2@ && d1 == d2,
        _ => false,
    }
}

/// A segment reads back as the segment written.
pub proof fn law_segments_round_trip(v: Value, s: Segment, back: Segment)
    requires
        writes_segment(v, s),
        reads_segment(v, back),
    ensures
        segment_ok(v),
        same_segment(s, back),
{
    lemma_spellings();
    if let Segment::Ingredient { display, .. } = s {
        law_display_tags_round_trip(display);
    }
}

/// A step reads back as the step written, segment by segment.
pub proof fn law_steps_round_trip(v: Value, st: Step, back: Step)
    requires
        writes_step(v, st),
        reads_step(v, back),
    ensures
        step_ok(v),
        back.segments@.len() == st.segments@.len(),
        forall|i: int| 0 <= i < st.segments@.len() ==> #[trigger] same_segment(st.segments@[i], back.segments@[i]),
{
    let l = segments_in(v)->0;
    assert forall|i: int|
        #![trigger segment_ok(l[i])]
        #![trigger same_segment(st.segments@[i], back.segments@[i])]
        0 <= i < l.len() implies segment_ok(l[i]) && same_segment(st.segments@[i], back.segments@[i]) by {
        assert(writes_segment(l[i], st.segments@[i]));
        assert(reads_segment(l[i], back.segments@[i]));
        law_segments_round_trip(l[i], st.segments@[i], back.segments@[i]);
    }
}

/// `b` is the recipe line `a` is, its numbers the same numbers.
pub open spec fn same_component(a: Component, b: Component) -> bool {
    match (a, b) {
        (Component::Ingredient(x), Component::Ingredient(y)) => x.id@ == y.id@ && x.ingredient@ == y.ingredient@
            && same_quantity(x.quantity, y.quantity),
        (Component::SubRecipe(x), Component::SubRecipe(y)) => x.id@ == y.id@ && x.recipe@ == y.recipe@ && match (
            x.amount,
            y.amount,
        ) {
            (SubRecipeAmount::Factor(f), SubRecipeAmount::Factor(g)) => denotes(g, f.num(), f.den()),
            (SubRecipeAmount::OfYield(p), SubRecipeAmount::OfYield(q)) => same_quantity(p, q),
            _ => false,
        },
        _ => false,
    }
}

/// The exact numbers of a recipe line are within range.
pub open spec fn component_in_range(c: Component) -> bool {
    match c {
        Component::Ingredient(u) => u.quantity.value.in_range(),
        Component::SubRecipe(s) => match s.amount {
            SubRecipeAmount::Factor(f) => f.in_range(),
            SubRecipeAmount::OfYield(q) => q.value.in_range(),
        },
    }
}

/// A recipe line reads back as the line written.
pub proof fn law_components_round_trip(v: Value, c: Component, back: Component)
    requires
        component_in_range(c),
        writes_component(v, c),
        reads_component(v, back),
    ensures
        component_ok(v),
        same_component(c, back),
{
    lemma_spellings();
    let m = as_map(v)->0;
    match c {
        Component::Ingredient(u) => {
            law_quantities_round_trip(present(m, QUANTITY@)->0, u.quantity);
        },
        Component::SubRecipe(s) => match s.amount {
            SubRecipeAmount::Factor(f) => {
                law_rationals_round_trip(f);
            },
            SubRecipeAmount::OfYield(q) => {
                law_quantities_round_trip(present(m, OF_YIELD@)->0, q);
            },
        },
    }
}

/// A recipe reads back as the recipe written: the same name and serving
/// count, the same yield, and the same lines and steps in the same order.
pub proof fn law_recipes_round_trip(v: Value, r: Recipe, back: Recipe)
    requires
        r.servings.count() > 0,
        r.yields matches Some(q) ==> q.value.in_range(),
        forall|i: int| 0 <= i < r.components@.len() ==> #[trigger] component_in_range(r.components@[i]),
        writes_recipe(v, r),
        reads_recipe(r.id@, v, back),
    ensures
        recipe_ok(v),
        back.id@ == r.id@,
        back.name@ == r.name@,
        back.servings.count() == r.servings.count(),
        match (r.yields, back.yields) {
            (Some(p), Some(q)) => same_quantity(p, q),
            (None, None) => true,
            _ => false,
        },
        back.components@.len() == r.components@.len(),
        forall|i: int|
            0 <= i < r.components@.len() ==> #[trigger] same_component(r.components@[i], back.components@[i]),
        back.steps@.len() == r.steps@.len(),
        forall|i: int|
            0 <= i < r.steps@.len() ==> (#[trigger] back.steps@[i]).segments@.len() == r.steps@[i].segments@.len(),
        forall|i: int, k: int|
            0 <= i < r.steps@.len() && 0 <= k < r.steps@[i].segments@.len() ==> #[trigger] same_segment(
                r.steps@[i].segments@[k],
                back.steps@[i].segments@[k],
            ),
{
    lemma_spellings();
    r.servings.lemma_count_fits();
    let m = as_map(v)->0;
    if let Some(q) = r.yields {
        law_quantities_round_trip(present(m, YIELDS@)->0, q);
    }
    let cs = items_at(m, COMPONENTS@)->0;
    assert forall|i: int|
        #![trigger component_ok(cs[i])]
        #![trigger same_component(r.components@[i], back.components@[i])]
        0 <= i < cs.len() implies component_ok(cs[i]) && same_component(r.components@[i], back.components@[i]) by {
        assert(writes_component(cs[i], r.components@[i]));
        assert(reads_component(cs[i], back.components@[i]));
        law_components_round_trip(cs[i], r.components@[i], back.components@[i]);
    }
    let ss = items_at(m, STEPS@)->0;
    assert forall|i: int|
        #![trigger step_ok(ss[i])]
        #![trigger back.steps@[i]]
        0 <= i < ss.len() implies step_ok(ss[i]) && back.steps@[i].segments@.len() == r.steps@[i].segments@.len() by {
        assert(writes_step(ss[i], r.steps@[i]));
        assert(reads_step(ss[i], back.steps@[i]));
        law_steps_round_trip(ss[i], r.steps@[i], back.steps@[i]);
    }
    assert forall|i: int, k: int|
        0 <= i < r.steps@.len() && 0 <= k < r.steps@[i].segments@.len() implies #[trigger] same_segment(
            r.steps@[i].segments@[k],
            back.steps@[i].segments@[k],
        ) by {
        assert(writes_step(ss[i], r.steps@[i]));
        assert(reads_step(ss[i], back.steps@[i]));
        law_steps_round_trip(ss[i], r.steps@[i], back.steps@[i]);
    }
    assert(components_ok(cs));
    assert(steps_ok(ss));
}

} // verus!
