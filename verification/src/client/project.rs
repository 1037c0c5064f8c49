//! Turning the library into what is on screen.
//!
//! Deriving the cart cannot be allowed to fail. [`crate::cart::derive`]
//! refuses a list that names a recipe or an ingredient it cannot find, which
//! is exactly right for a pure function and exactly wrong for a screen:
//! under a replicated document, one device deleting a recipe while the other
//! has it on the list is not an error state, it is Tuesday. So the list is
//! triaged first. An entry whose recipe is gone is set aside with a
//! [`ProblemView`]; an ingredient that is gone is replaced by a placeholder
//! carrying its own id as a name, so the line stays in the cart and the rest
//! of the trip still works.

use vstd::prelude::*;
use vstd::multiset::Multiset;

use crate::client::command::{
    ComponentInput, QuantityInput, RecipeInput, SegmentInput, StepInput, SubRecipeAmountInput,
};
use crate::client::library::Library;
use crate::client::number::{lossless_text, render, render_lossless, render_text};
use crate::client::view::{
    shows_quantity, CartLineView, CartView, ComponentView, DeviceView, FocusView, IngredientView,
    ListEntryView, ListItemView, PersonView, ProgressView, QuantityView, RecipeSummaryView,
    RecipeView, SegmentView, StateView, StepView, SubRecipeAmountView, UserView,
};
use crate::client::platform::Identity;
use crate::ingredient::Ingredient;
use crate::client::view::{ActionTag, EventView, ProblemKind, ProblemView, SubjectTag};
use crate::event::{Action, Event, EventLog, Subject};
use crate::people::{devices_of, owned_by, Device, User};
use crate::ids::RecipeId;
use crate::rational::{denotes, lemma_arith_denotes, make, Rational};
use crate::cart::{
    asked, cart_message, first_fault, line_fault, shows, spec_demands,
    at_home, lines_from, lines_where, picked, settled_from, to_pick, Cart, CartLine, EntryProgress,
};
use crate::client::library::{name_of, text_of};
use crate::expand::{expand, expand_message, ids, spec_expand, Contribution, ExpandError, ExpandFault};
use crate::ids::IngredientId;
use crate::ingredient::{same_ingredient, Aisle};
use crate::ingredient_index::{same_filing, IngredientIndex};
use crate::list::ShoppingList;
use crate::text::{push_str, string_of};
use crate::sync::key::{lowercase, to_lowercase};
use crate::text::{lemma_seq_lt_irreflexive, lemma_seq_lt_transitive, seq_lt, str_lt};

use crate::client::tags::{
    aisle_tag, check_state_tag, display_tag, state_tag, unit_tag, AisleTag, RefDisplayTag, UnitTag,
};
use crate::list::{ListEntry, ListItem};
use crate::overlay::CheckState;
use crate::quantity::Quantity;
use crate::recipe::{ingredient_usages_in, sub_recipes_in, usage_in, Component, Recipe, RefDisplay, Segment, Servings, Step, SubRecipeAmount};

verus! {

/// `q` is the edit form's field for `quantity`: its exact text and its unit.
pub open spec fn input_of(q: QuantityInput, quantity: Quantity) -> bool {
    &&& q.amount@ == lossless_text(quantity.value.num(), quantity.value.den())
    &&& q.unit == unit_tag(quantity.unit)
}

/// The edit form's line for `component`, keeping its usage id.
pub open spec fn component_input_of(c: ComponentInput, component: Component) -> bool {
    match component {
        Component::Ingredient(u) => c matches ComponentInput::Ingredient { id, ingredient, quantity }
            && id matches Some(s) && s@ == u.id@ && ingredient@ == u.ingredient@ && input_of(
            quantity,
            u.quantity,
        ),
        Component::SubRecipe(s) => c matches ComponentInput::SubRecipe { id, recipe, amount }
            && id matches Some(t) && t@ == s.id@ && recipe@ == s.recipe@ && match s.amount {
            SubRecipeAmount::Factor(v) => amount matches SubRecipeAmountInput::Factor { factor }
                && factor@ == lossless_text(v.num(), v.den()),
            SubRecipeAmount::OfYield(q) => amount matches SubRecipeAmountInput::OfYield { quantity }
                && input_of(quantity, q),
        },
    }
}

/// The edit form's segment for `segment`.
pub open spec fn segment_input_of(s: SegmentInput, segment: Segment) -> bool {
    match segment {
        Segment::Text(t) => s matches SegmentInput::Text { text } && text@ == t@,
        Segment::Ingredient { usage: u, display: d } => s matches SegmentInput::Ingredient {
            usage,
            display,
        } && usage@ == u@ && display == display_tag(d),
    }
}

/// The edit form's step for `step`.
pub open spec fn step_input_of(s: StepInput, step: Step) -> bool {
    &&& s.segments@.len() == step.segments@.len()
    &&& forall|i: int|
        0 <= i < s.segments@.len() ==> segment_input_of(
            #[trigger] s.segments@[i],
            step.segments@[i],
        )
}

/// `form` is `recipe` as written, in the shape a save accepts.
pub open spec fn edit_form_of(form: RecipeInput, recipe: Recipe) -> bool {
    &&& form.id matches Some(s) && s@ == recipe.id@
    &&& form.name@ == recipe.name@
    &&& form.servings == recipe.servings.count()
    &&& match recipe.yields {
        Some(y) => form.yields matches Some(q) && input_of(q, y),
        None => form.yields is None,
    }
    &&& form.components@.len() == recipe.components@.len()
    &&& forall|i: int|
        0 <= i < form.components@.len() ==> component_input_of(
            #[trigger] form.components@[i],
            recipe.components@[i],
        )
    &&& form.steps@.len() == recipe.steps@.len()
    &&& forall|i: int|
        0 <= i < form.steps@.len() ==> step_input_of(#[trigger] form.steps@[i], recipe.steps@[i])
}

/// A quantity as the edit form holds it: the exact text, never a rounded
/// one, since the form will be sent back.
pub fn quantity_input(quantity: &Quantity) -> (q: QuantityInput)
    ensures
        input_of(q, *quantity),
{
    QuantityInput { amount: render_lossless(quantity.value), unit: UnitTag::from(quantity.unit) }
}

fn component_input(component: &Component) -> (c: ComponentInput)
    ensures
        component_input_of(c, *component),
{
    match component {
        Component::Ingredient(usage) => ComponentInput::Ingredient {
            id: Some(usage.id.as_str().to_owned()),
            ingredient: usage.ingredient.as_str().to_owned(),
            quantity: quantity_input(&usage.quantity),
        },
        Component::SubRecipe(sub) => ComponentInput::SubRecipe {
            id: Some(sub.id.as_str().to_owned()),
            recipe: sub.recipe.as_str().to_owned(),
            amount: match &sub.amount {
                SubRecipeAmount::Factor(value) => SubRecipeAmountInput::Factor {
                    factor: render_lossless(*value),
                },
                SubRecipeAmount::OfYield(quantity) => SubRecipeAmountInput::OfYield {
                    quantity: quantity_input(quantity),
                },
            },
        },
    }
}

fn segment_input(segment: &Segment) -> (s: SegmentInput)
    ensures
        segment_input_of(s, *segment),
{
    match segment {
        Segment::Text(text) => SegmentInput::Text { text: text.as_str().to_owned() },
        Segment::Ingredient { usage, display } => SegmentInput::Ingredient {
            usage: usage.as_str().to_owned(),
            display: RefDisplayTag::from(*display),
        },
    }
}

fn step_input(step: &Step) -> (s: StepInput)
    ensures
        step_input_of(s, *step),
{
    let mut segments: Vec<SegmentInput> = Vec::new();
    let mut i: usize = 0;
    while i < step.segments.len()
        invariant
            i <= step.segments@.len(),
            segments@.len() == i,
            forall|k: int| 0 <= k < i ==> segment_input_of(#[trigger] segments@[k], step.segments@[k]),
        decreases step.segments@.len() - i,
    {
        segments.push(segment_input(&step.segments[i]));
        i = i + 1;
    }
    StepInput { segments }
}

/// The recipe as written, in the shape a save accepts.
///
/// Quantities go through [`render_lossless`] rather than the pretty
/// rendering: this is a form that will be sent back, and a form that rounds
/// what it displays is a form that silently rewrites what it was given.
pub fn edit_input(recipe: &Recipe) -> (form: RecipeInput)
    ensures
        edit_form_of(form, *recipe),
{
    let mut components: Vec<ComponentInput> = Vec::new();
    let mut i: usize = 0;
    while i < recipe.components.len()
        invariant
            i <= recipe.components@.len(),
            components@.len() == i,
            forall|k: int|
                0 <= k < i ==> component_input_of(#[trigger] components@[k], recipe.components@[k]),
        decreases recipe.components@.len() - i,
    {
        components.push(component_input(&recipe.components[i]));
        i = i + 1;
    }
    let mut steps: Vec<StepInput> = Vec::new();
    let mut j: usize = 0;
    while j < recipe.steps.len()
        invariant
            j <= recipe.steps@.len(),
            steps@.len() == j,
            forall|k: int| 0 <= k < j ==> step_input_of(#[trigger] steps@[k], recipe.steps@[k]),
        decreases recipe.steps@.len() - j,
    {
        steps.push(step_input(&recipe.steps[j]));
        j = j + 1;
    }
    RecipeInput {
        id: Some(recipe.id.as_str().to_owned()),
        name: recipe.name.as_str().to_owned(),
        servings: recipe.servings.get(),
        yields: match &recipe.yields {
            Some(q) => Some(quantity_input(q)),
            None => None,
        },
        components,
        steps,
    }
}


/// The text of an optional string.
pub open spec fn opt_text(s: Option<String>) -> Option<Seq<char>> {
    match s {
        Some(t) => Some(t@),
        None => None,
    }
}

/// `q` at `factor`, or `q` as written when the scaled amount would leave
/// the range in which amounts stay exact.
pub open spec fn scaled_or_written(q: Quantity, factor: Rational) -> Quantity {
    match q.spec_scaled(factor) {
        Some(s) => s,
        None => q,
    }
}

/// Reading at a factor shows every measured amount, a count of pieces as
/// much as a mass or a volume, as that amount multiplied by the factor, in
/// the unit it was written in. Only an unmeasured amount ("to taste", a
/// pinch) and an amount whose product would leave the bounds are shown as
/// written.
pub proof fn law_reading_scales_every_measured_amount(q: Quantity, factor: Rational)
    requires
        q.value.in_range(),
        factor.in_range(),
    ensures
        scaled_or_written(q, factor).unit == q.unit,
        q.spec_dimension() != crate::units::Dimension::Unmeasured && q.value.spec_mul(factor) is Some
            ==> denotes(
            scaled_or_written(q, factor).value,
            q.value.num() * factor.num(),
            q.value.den() * factor.den(),
        ),
        q.spec_dimension() == crate::units::Dimension::Unmeasured ==> scaled_or_written(q, factor)
            == q,
        q.value.spec_mul(factor) is None ==> scaled_or_written(q, factor) == q,
{
    lemma_arith_denotes(q.value, factor);
}

/// `v` times `factor`, or `v` when the product would leave the range.
pub open spec fn times_or_written(v: Rational, factor: Rational) -> Rational {
    match v.spec_mul(factor) {
        Some(p) => p,
        None => v,
    }
}

/// `q` scaled for reading; see [`scaled_or_written`].
pub fn scale_for_reading(q: &Quantity, factor: Rational) -> (r: Quantity)
    ensures
        r == scaled_or_written(*q, factor),
{
    match q.checked_scaled(factor) {
        Some(s) => s,
        None => *q,
    }
}

/// The name of the recipe filed under `id`.
pub open spec fn recipe_name(library: Library, id: Seq<char>) -> Option<Seq<char>> {
    match library.recipes.spec_get(id) {
        Some(r) => Some(r.name@),
        None => None,
    }
}

/// `v` shows `segment` of `recipe` at `factor`: a reference resolves to its
/// usage, with the name and the quantity present exactly when the display
/// rule shows them; a reference to a usage that is gone shows as missing.
pub open spec fn segment_view_of(
    v: SegmentView,
    segment: Segment,
    library: Library,
    recipe: Recipe,
    factor: Rational,
) -> bool {
    match segment {
        Segment::Text(t) => v matches SegmentView::Text { text } && text@ == t@,
        Segment::Ingredient { usage: u, display: d } => match usage_in(recipe.components@, u@) {
            Some(line) => v matches SegmentView::Ingredient { usage, name, quantity, display }
                && usage@ == u@ && display == display_tag(d) && opt_text(name) == (if d
                == RefDisplay::QuantityOnly {
                None
            } else {
                library.spec_ingredient_name(line.ingredient@)
            }) && (if d == RefDisplay::NameOnly {
                quantity is None
            } else {
                quantity matches Some(qv) && shows_quantity(qv, scaled_or_written(line.quantity, factor))
            }),
            None => v matches SegmentView::Missing { usage } && usage@ == u@,
        },
    }
}

/// `v` shows `step` of `recipe` at `factor`, segment for segment.
pub open spec fn step_view_of(v: StepView, step: Step, library: Library, recipe: Recipe, factor: Rational) -> bool {
    &&& v.segments@.len() == step.segments@.len()
    &&& forall|i: int|
        0 <= i < v.segments@.len() ==> segment_view_of(
            #[trigger] v.segments@[i],
            step.segments@[i],
            library,
            recipe,
            factor,
        )
}

/// `v` shows `component` at `factor`, named from the library when it can be.
pub open spec fn component_view_of(v: ComponentView, component: Component, library: Library, factor: Rational) -> bool {
    match component {
        Component::Ingredient(u) => v matches ComponentView::Ingredient { usage, ingredient, name, quantity }
            && usage@ == u.id@ && ingredient@ == u.ingredient@ && opt_text(name)
            == library.spec_ingredient_name(u.ingredient@) && shows_quantity(
            quantity,
            scaled_or_written(u.quantity, factor),
        ),
        Component::SubRecipe(s) => v matches ComponentView::SubRecipe { usage, recipe, name, amount }
            && usage@ == s.id@ && recipe@ == s.recipe@ && opt_text(name) == recipe_name(
            library,
            s.recipe@,
        ) && match s.amount {
            SubRecipeAmount::Factor(f) => amount matches SubRecipeAmountView::Factor { factor: t }
                && t@ == render_text(times_or_written(f, factor).num(), times_or_written(f, factor).den()),
            SubRecipeAmount::OfYield(q) => amount matches SubRecipeAmountView::OfYield { quantity }
                && shows_quantity(quantity, scaled_or_written(q, factor)),
        },
    }
}

fn segment_view(library: &Library, recipe: &Recipe, factor: Rational, segment: &Segment) -> (v: SegmentView)
    ensures
        segment_view_of(v, *segment, *library, *recipe, factor),
{
    match segment {
        Segment::Text(text) => SegmentView::Text { text: text.as_str().to_owned() },
        Segment::Ingredient { usage, display } => match recipe.usage(usage) {
            Some(line) => {
                let quantity = QuantityView::of(&scale_for_reading(&line.quantity, factor));
                let name = match library.ingredient_name(&line.ingredient) {
                    Some(n) => Some(n.to_owned()),
                    None => None,
                };
                SegmentView::Ingredient {
                    usage: usage.as_str().to_owned(),
                    name: match display {
                        RefDisplay::Full | RefDisplay::NameOnly => name,
                        RefDisplay::QuantityOnly => None,
                    },
                    quantity: match display {
                        RefDisplay::Full | RefDisplay::QuantityOnly => Some(quantity),
                        RefDisplay::NameOnly => None,
                    },
                    display: RefDisplayTag::from(*display),
                }
            },
            None => SegmentView::Missing { usage: usage.as_str().to_owned() },
        },
    }
}

/// Resolves each step's references at the servings being read.
///
/// The display rule is applied *here*: `name` and `quantity` are present
/// exactly when they are to be shown, so the frontend renders what it is
/// given instead of deciding what a "name only" mention means.
pub fn steps_view(library: &Library, recipe: &Recipe, factor: Rational) -> (r: Vec<StepView>)
    ensures
        r@.len() == recipe.steps@.len(),
        forall|i: int| 0 <= i < r@.len() ==> step_view_of(#[trigger] r@[i], recipe.steps@[i], *library, *recipe, factor),
{
    let mut out: Vec<StepView> = Vec::new();
    let mut i: usize = 0;
    while i < recipe.steps.len()
        invariant
            i <= recipe.steps@.len(),
            out@.len() == i,
            forall|k: int| 0 <= k < i ==> step_view_of(#[trigger] out@[k], recipe.steps@[k], *library, *recipe, factor),
        decreases recipe.steps@.len() - i,
    {
        let step = &recipe.steps[i];
        let mut segments: Vec<SegmentView> = Vec::new();
        let mut j: usize = 0;
        while j < step.segments.len()
            invariant
                j <= step.segments@.len(),
                segments@.len() == j,
                forall|k: int| 0 <= k < j ==> segment_view_of(#[trigger] segments@[k], step.segments@[k], *library, *recipe, factor),
            decreases step.segments@.len() - j,
        {
            segments.push(segment_view(library, recipe, factor, &step.segments[j]));
            j = j + 1;
        }
        out.push(StepView { segments });
        i = i + 1;
    }
    out
}

fn component_view(library: &Library, factor: Rational, component: &Component) -> (v: ComponentView)
    ensures
        component_view_of(v, *component, *library, factor),
{
    match component {
        Component::Ingredient(usage) => ComponentView::Ingredient {
            usage: usage.id.as_str().to_owned(),
            ingredient: usage.ingredient.as_str().to_owned(),
            name: match library.ingredient_name(&usage.ingredient) {
                Some(n) => Some(n.to_owned()),
                None => None,
            },
            quantity: QuantityView::of(&scale_for_reading(&usage.quantity, factor)),
        },
        Component::SubRecipe(sub) => ComponentView::SubRecipe {
            usage: sub.id.as_str().to_owned(),
            recipe: sub.recipe.as_str().to_owned(),
            name: match library.recipes.get(&sub.recipe) {
                Some(r) => Some(r.name.as_str().to_owned()),
                None => None,
            },
            amount: match &sub.amount {
                SubRecipeAmount::Factor(value) => {
                    let product = match value.checked_mul(&factor) {
                        Some(p) => p,
                        None => *value,
                    };
                    SubRecipeAmountView::Factor { factor: render(product).text }
                },
                SubRecipeAmount::OfYield(quantity) => SubRecipeAmountView::OfYield {
                    quantity: QuantityView::of(&scale_for_reading(quantity, factor)),
                },
            },
        },
    }
}

/// The recipe's lines at `factor`, each named from the library when the
/// library still has what it names.
pub fn components_view(library: &Library, recipe: &Recipe, factor: Rational) -> (r: Vec<ComponentView>)
    ensures
        r@.len() == recipe.components@.len(),
        forall|i: int| 0 <= i < r@.len() ==> component_view_of(#[trigger] r@[i], recipe.components@[i], *library, factor),
{
    let mut out: Vec<ComponentView> = Vec::new();
    let mut i: usize = 0;
    while i < recipe.components.len()
        invariant
            i <= recipe.components@.len(),
            out@.len() == i,
            forall|k: int| 0 <= k < i ==> component_view_of(#[trigger] out@[k], recipe.components@[k], *library, factor),
        decreases recipe.components@.len() - i,
    {
        out.push(component_view(library, factor, &recipe.components[i]));
        i = i + 1;
    }
    out
}

/// Which recipe this device has open, and at how many servings — as written
/// when `None`. Device-local: not a source, never synced.
#[derive(Debug, Clone, PartialEq, Eq)]
pub struct Focus {
    pub recipe: RecipeId,
    pub servings: Option<Servings>,
}

/// `v` shows the open recipe `recipe` of `library` at `servings`.
pub open spec fn focus_view_of(v: FocusView, library: Library, recipe: Recipe, servings: Servings) -> bool {
    let factor = make(servings.count(), recipe.servings.count())->0;
    &&& v.recipe.id@ == recipe.id@
    &&& v.recipe.name@ == recipe.name@
    &&& v.recipe.written_for == recipe.servings.count()
    &&& v.recipe.servings == servings.count()
    &&& match recipe.yields {
        Some(y) => v.recipe.yields matches Some(q) && shows_quantity(q, scaled_or_written(y, factor)),
        None => v.recipe.yields is None,
    }
    &&& v.recipe.components@.len() == recipe.components@.len()
    &&& (forall|i: int| 0 <= i < v.recipe.components@.len() ==> component_view_of(#[trigger] v.recipe.components@[i], recipe.components@[i], library, factor))
    &&& v.recipe.steps@.len() == recipe.steps@.len()
    &&& (forall|i: int| 0 <= i < v.recipe.steps@.len() ==> step_view_of(#[trigger] v.recipe.steps@[i], recipe.steps@[i], library, recipe, factor))
    &&& edit_form_of(v.edit, recipe)
}

/// `r` shows the recipe `focus` opens, at its servings or as written;
/// `None` when the library no longer has it.
pub open spec fn focus_of(r: Option<FocusView>, library: Library, focus: Focus) -> bool {
    match library.recipes.spec_get(focus.recipe@) {
        None => r is None,
        Some(recipe) => r matches Some(v) && focus_view_of(v, library, recipe, match focus.servings {
            Some(s) => s,
            None => recipe.servings,
        }),
    }
}

/// The open recipe, read at the chosen servings; `None` when the library no
/// longer has it.
pub fn focus_view(library: &Library, focus: &Focus) -> (r: Option<FocusView>)
    ensures
        focus_of(r, *library, *focus),
{
    let recipe = match library.recipes.get(&focus.recipe) {
        Some(r) => r,
        None => return None,
    };
    let servings = match focus.servings {
        Some(s) => s,
        None => recipe.servings,
    };
    let factor = recipe.factor_for_servings(servings);
    Some(FocusView {
        recipe: RecipeView {
            id: recipe.id.as_str().to_owned(),
            name: recipe.name.as_str().to_owned(),
            written_for: recipe.servings.get(),
            servings: servings.get(),
            yields: match &recipe.yields {
                Some(q) => Some(QuantityView::of(&scale_for_reading(q, factor))),
                None => None,
            },
            components: components_view(library, recipe, factor),
            steps: steps_view(library, recipe, factor),
        },
        edit: edit_input(recipe),
    })
}


/// `v` shows cart line `line`, with whoever checked it named from the
/// library.
pub open spec fn line_view_of(v: CartLineView, line: CartLine, library: Library) -> bool {
    &&& v.ingredient@ == line.ingredient@
    &&& v.name@ == line.name@
    &&& v.aisle == aisle_tag(line.aisle)
    &&& v.staple == line.staple
    &&& v.amounts@.len() == line.amounts@.len()
    &&& (forall|i: int| 0 <= i < v.amounts@.len() ==> shows_quantity(#[trigger] v.amounts@[i], line.amounts@[i]))
    &&& v.state == check_state_tag(line.state)
    &&& opt_text(v.checked_by) == match line.state {
        CheckState::Checked { by, .. } => name_of(library.users@, by@),
        _ => None,
    }
    &&& v.checked_at == match line.state {
        CheckState::Checked { at, .. } => Some(at.0),
        _ => None,
    }
    &&& v.sources@.len() == line.sources@.len()
    &&& (forall|i: int| 0 <= i < v.sources@.len() ==> (#[trigger] v.sources@[i])@ == line.sources@[i]@)
}

/// `vs` shows `lines`, one for one.
pub open spec fn lines_view_of(vs: Seq<CartLineView>, lines: Seq<CartLine>, library: Library) -> bool {
    &&& vs.len() == lines.len()
    &&& forall|i: int| 0 <= i < vs.len() ==> line_view_of(#[trigger] vs[i], lines[i], library)
}

fn line_view(library: &Library, line: &CartLine) -> (v: CartLineView)
    ensures
        line_view_of(v, *line, *library),
{
    let mut amounts: Vec<QuantityView> = Vec::new();
    let mut i: usize = 0;
    while i < line.amounts.len()
        invariant
            i <= line.amounts@.len(),
            amounts@.len() == i,
            forall|k: int| 0 <= k < i ==> shows_quantity(#[trigger] amounts@[k], line.amounts@[k]),
        decreases line.amounts@.len() - i,
    {
        amounts.push(QuantityView::of(&line.amounts[i]));
        i = i + 1;
    }
    let mut sources: Vec<String> = Vec::new();
    let mut j: usize = 0;
    while j < line.sources.len()
        invariant
            j <= line.sources@.len(),
            sources@.len() == j,
            forall|k: int| 0 <= k < j ==> (#[trigger] sources@[k])@ == line.sources@[k]@,
        decreases line.sources@.len() - j,
    {
        sources.push(line.sources[j].as_str().to_owned());
        j = j + 1;
    }
    CartLineView {
        ingredient: line.ingredient.as_str().to_owned(),
        name: line.name.as_str().to_owned(),
        aisle: AisleTag::from(line.aisle),
        staple: line.staple,
        amounts,
        state: state_tag(&line.state),
        checked_by: match &line.state {
            CheckState::Checked { by, .. } => match library.user_name(by) {
                Some(n) => Some(n.to_owned()),
                None => None,
            },
            _ => None,
        },
        checked_at: match &line.state {
            CheckState::Checked { at, .. } => Some(at.0),
            _ => None,
        },
        sources,
    }
}

fn lines_view(library: &Library, lines: &Vec<&CartLine>) -> (r: Vec<CartLineView>)
    ensures
        r@.len() == lines@.len(),
        forall|i: int| 0 <= i < r@.len() ==> line_view_of(#[trigger] r@[i], *lines@[i], *library),
{
    let mut out: Vec<CartLineView> = Vec::new();
    let mut i: usize = 0;
    while i < lines.len()
        invariant
            i <= lines@.len(),
            out@.len() == i,
            forall|k: int| 0 <= k < i ==> line_view_of(#[trigger] out@[k], *lines@[k], *library),
        decreases lines@.len() - i,
    {
        out.push(line_view(library, lines[i]));
        i = i + 1;
    }
    out
}

/// `v` shows `cart` in its three sections.
pub open spec fn cart_view_of(v: CartView, library: Library, cart: Cart) -> bool {
    &&& lines_view_of(v.to_buy@, lines_where(cart.lines@, |s: CheckState| to_pick(s)), library)
    &&& lines_view_of(v.bought@, lines_where(cart.lines@, |s: CheckState| picked(s)), library)
    &&& lines_view_of(v.at_home@, lines_where(cart.lines@, |s: CheckState| at_home(s)), library)
    &&& v.remaining == lines_where(cart.lines@, |s: CheckState| to_pick(s)).len()
    &&& v.total == cart.lines@.len()
}

/// The cart in its three sections, in walking order, with the count still
/// to pick up and the count of every line.
pub fn cart_view(library: &Library, cart: &Cart) -> (v: CartView)
    ensures
        cart_view_of(v, *library, *cart),
{
    let to_buy = cart.to_buy();
    let bought = cart.bought();
    let at_home_lines = cart.already_at_home();
    CartView {
        to_buy: lines_view(library, &to_buy),
        bought: lines_view(library, &bought),
        at_home: lines_view(library, &at_home_lines),
        remaining: to_buy.len(),
        total: cart.lines.len(),
    }
}

/// `v` shows list entry `entry`, `settled` of whose `total` cart lines are
/// settled.
pub open spec fn entry_view_of(v: ListEntryView, entry: ListEntry, settled: nat, total: nat, library: Library) -> bool {
    &&& v.id@ == entry.id@
    &&& match entry.item {
        ListItem::Recipe { recipe: r, servings: s } => v.item matches ListItemView::Recipe {
            recipe,
            name,
            servings,
            written_for,
        } && recipe@ == r@ && name@ == (match library.recipes.spec_get(r@) {
            Some(x) => x.name@,
            None => Seq::<char>::empty(),
        }) && servings == s.count() && written_for == (match library.recipes.spec_get(r@) {
            Some(x) => x.servings.count(),
            None => s.count(),
        }),
        ListItem::Ingredient { ingredient: i, quantity: q } => v.item matches ListItemView::Ingredient {
            ingredient,
            name,
            quantity,
        } && ingredient@ == i@ && name@ == (match library.spec_ingredient_name(i@) {
            Some(n) => n,
            None => Seq::<char>::empty(),
        }) && shows_quantity(quantity, q),
    }
    &&& v.progress.settled == settled
    &&& v.progress.total == total
    &&& v.progress.complete == (total > 0 && settled == total)
    &&& opt_text(v.added_by) == name_of(library.users@, entry.added_by@)
    &&& v.added_at == entry.added_at.0
}

fn entry_view(library: &Library, entry: &ListEntry, progress: &EntryProgress) -> (v: ListEntryView)
    ensures
        entry_view_of(v, *entry, progress.settled as nat, progress.total as nat, *library),
{
    let item = match &entry.item {
        ListItem::Recipe { recipe, servings } => {
            let found = library.recipes.get(recipe);
            ListItemView::Recipe {
                recipe: recipe.as_str().to_owned(),
                name: match found {
                    Some(r) => r.name.as_str().to_owned(),
                    None => String::new(),
                },
                servings: servings.get(),
                written_for: match found {
                    Some(r) => r.servings.get(),
                    None => servings.get(),
                },
            }
        },
        ListItem::Ingredient { ingredient, quantity } => ListItemView::Ingredient {
            ingredient: ingredient.as_str().to_owned(),
            name: match library.ingredient_name(ingredient) {
                Some(n) => n.to_owned(),
                None => String::new(),
            },
            quantity: QuantityView::of(quantity),
        },
    };
    ListEntryView {
        id: entry.id.as_str().to_owned(),
        item,
        progress: ProgressView {
            settled: progress.settled,
            total: progress.total,
            complete: progress.is_complete(),
        },
        added_by: match library.user_name(&entry.added_by) {
            Some(n) => Some(n.to_owned()),
            None => None,
        },
        added_at: entry.added_at.0,
    }
}

/// `vs` shows the list of `library`, entry for entry, with the progress
/// `cart` gives each.
pub open spec fn list_view_of(vs: Seq<ListEntryView>, library: Library, cart: Cart) -> bool {
    &&& vs.len() == library.list.entries@.len()
    &&& forall|i: int|
        0 <= i < vs.len() ==> entry_view_of(
            #[trigger] vs[i],
            library.list.entries@[i],
            settled_from(cart.lines@, library.list.entries@[i].id@),
            lines_from(cart.lines@, library.list.entries@[i].id@),
            library,
        )
}

/// The list, in list order, each entry with how far the cart has got
/// through it: a recipe shows "5/7" until every ingredient it contributed is
/// settled.
pub fn list_view(library: &Library, cart: &Cart) -> (r: Vec<ListEntryView>)
    ensures
        list_view_of(r@, *library, *cart),
{
    let progress = cart.progress(&library.list);
    let mut out: Vec<ListEntryView> = Vec::new();
    let mut i: usize = 0;
    while i < library.list.entries.len()
        invariant
            i <= library.list.entries@.len(),
            progress@.len() == library.list.entries@.len(),
            forall|k: int|
                #![trigger progress@[k]]
                0 <= k < progress@.len() ==> {
                    &&& progress@[k].total == lines_from(cart.lines@, library.list.entries@[k].id@)
                    &&& progress@[k].settled == settled_from(cart.lines@, library.list.entries@[k].id@)
                },
            out@.len() == i,
            forall|k: int|
                0 <= k < i ==> entry_view_of(
                    #[trigger] out@[k],
                    library.list.entries@[k],
                    settled_from(cart.lines@, library.list.entries@[k].id@),
                    lines_from(cart.lines@, library.list.entries@[k].id@),
                    *library,
                ),
        decreases library.list.entries@.len() - i,
    {
        let v = entry_view(library, &library.list.entries[i], &progress[i]);
        proof {
            assert(progress@[i as int].total == lines_from(cart.lines@, library.list.entries@[i as int].id@));
            assert(progress@[i as int].settled == settled_from(cart.lines@, library.list.entries@[i as int].id@));
        }
        out.push(v);
        i = i + 1;
    }
    out
}


/// Alphabetical order, case-insensitively, with the id breaking ties so two
/// devices never disagree about the order of two identically named things:
/// `(name, id)` strictly before `(other_name, other_id)`.
///
/// Not a locale-aware collation: "é" sorts after "z" here.
pub open spec fn name_before(name: Seq<char>, id: Seq<char>, other_name: Seq<char>, other_id: Seq<char>) -> bool {
    seq_lt(lowercase(name), lowercase(other_name)) || (lowercase(name) == lowercase(other_name)
        && seq_lt(id, other_id))
}

/// Whether `a` (with id `a_id`) sorts strictly before `b` (with id `b_id`).
pub fn by_name(a: &str, a_id: &str, b: &str, b_id: &str) -> (r: bool)
    ensures
        r == name_before(a@, a_id@, b@, b_id@),
{
    let la = to_lowercase(a);
    let lb = to_lowercase(b);
    if str_lt(la.as_str(), lb.as_str()) {
        true
    } else if la == lb {
        str_lt(a_id, b_id)
    } else {
        false
    }
}

proof fn lemma_name_before_order(a: (Seq<char>, Seq<char>), b: (Seq<char>, Seq<char>), c: (Seq<char>, Seq<char>))
    ensures
        !name_before(a.0, a.1, a.0, a.1),
        name_before(a.0, a.1, b.0, b.1) && name_before(b.0, b.1, c.0, c.1) ==> name_before(a.0, a.1, c.0, c.1),
{
    lemma_seq_lt_irreflexive(lowercase(a.0));
    lemma_seq_lt_irreflexive(a.1);
    if name_before(a.0, a.1, b.0, b.1) && name_before(b.0, b.1, c.0, c.1) {
        let (la, lb, lc) = (lowercase(a.0), lowercase(b.0), lowercase(c.0));
        if seq_lt(la, lb) && seq_lt(lb, lc) {
            lemma_seq_lt_transitive(la, lb, lc);
        } else if seq_lt(la, lb) {
        } else if seq_lt(lb, lc) {
        } else {
            lemma_seq_lt_transitive(a.1, b.1, c.1);
        }
    }
}

/// Something listed by name, with an id to break ties.
pub trait ByName: Sized {
    spec fn sort_name(&self) -> Seq<char>;

    spec fn sort_id(&self) -> Seq<char>;

    /// Whether `self` sorts strictly before `other`.
    fn before(&self, other: &Self) -> (b: bool)
        ensures
            b == name_before(self.sort_name(), self.sort_id(), other.sort_name(), other.sort_id()),
    ;
}

/// `s` is in name order.
pub open spec fn sorted_by_name<T: ByName>(s: Seq<T>) -> bool {
    forall|i: int, j: int|
        0 <= i < j < s.len() ==> !name_before(
            #[trigger] s[j].sort_name(),
            s[j].sort_id(),
            #[trigger] s[i].sort_name(),
            s[i].sort_id(),
        )
}

/// The same items, in name order.
pub fn sort_by_name<T: ByName>(items: Vec<T>) -> (r: Vec<T>)
    ensures
        r@.to_multiset() == items@.to_multiset(),
        sorted_by_name(r@),
{
    broadcast use vstd::seq_lib::group_to_multiset_ensures, vstd::multiset::group_multiset_axioms;
    let mut rest = items;
    let mut out: Vec<T> = Vec::new();
    proof {
        assert(out@.to_multiset() =~= Multiset::<T>::empty());
        assert(out@.to_multiset().add(rest@.to_multiset()) =~= items@.to_multiset());
    }
    while rest.len() > 0
        invariant
            out@.to_multiset().add(rest@.to_multiset()) == items@.to_multiset(),
            sorted_by_name(out@),
        decreases rest@.len(),
    {
        let ghost before_rest = rest@;
        let x = rest.pop().unwrap();
        proof {
            assert(before_rest =~= rest@.push(x));
            vstd::seq_lib::to_multiset_build(rest@, x);
            assert(before_rest.to_multiset() =~= rest@.to_multiset().insert(x));
        }
        let mut p: usize = 0;
        while p < out.len() && !x.before(&out[p])
            invariant
                p <= out@.len(),
                forall|q: int| 0 <= q < p ==> !name_before(x.sort_name(), x.sort_id(), (#[trigger] out@[q]).sort_name(), out@[q].sort_id()),
            decreases out@.len() - p,
        {
            p = p + 1;
        }
        let ghost old_out = out@;
        out.insert(p, x);
        proof {
            assert(out@ == old_out.insert(p as int, x));
            vstd::seq_lib::to_multiset_insert(old_out, p as int, x);
            assert(out@.to_multiset() =~= old_out.to_multiset().insert(x));
            assert(out@.to_multiset().add(rest@.to_multiset()) =~= old_out.to_multiset().add(before_rest.to_multiset()));
            assert forall|i: int, j: int| 0 <= i < j < out@.len() implies !name_before(
                #[trigger] out@[j].sort_name(),
                out@[j].sort_id(),
                #[trigger] out@[i].sort_name(),
                out@[i].sort_id(),
            ) by {
                let key = |t: T| (t.sort_name(), t.sort_id());
                if j < p {
                    assert(out@[i] == old_out[i] && out@[j] == old_out[j]);
                } else if j == p {
                    assert(out@[j] == x && out@[i] == old_out[i]);
                } else if i > p {
                    assert(out@[i] == old_out[i - 1] && out@[j] == old_out[j - 1]);
                } else if i == p {
                    assert(out@[i] == x && out@[j] == old_out[j - 1]);
                    assert(p < old_out.len());
                    lemma_name_before_order(key(old_out[j - 1]), key(x), key(old_out[p as int]));
                    lemma_name_before_order(key(old_out[p as int]), key(x), key(x));
                } else {
                    assert(out@[i] == old_out[i] && out@[j] == old_out[j - 1]);
                }
            }
        }
    }
    proof {
        assert(rest@.to_multiset() =~= Multiset::<T>::empty());
        assert(out@.to_multiset().add(Multiset::<T>::empty()) =~= out@.to_multiset());
    }
    out
}


impl ByName for RecipeSummaryView {
    open spec fn sort_name(&self) -> Seq<char> {
        self.name@
    }

    open spec fn sort_id(&self) -> Seq<char> {
        self.id@
    }

    fn before(&self, other: &Self) -> (b: bool) {
        by_name(self.name.as_str(), self.id.as_str(), other.name.as_str(), other.id.as_str())
    }
}

impl ByName for IngredientView {
    open spec fn sort_name(&self) -> Seq<char> {
        self.name@
    }

    open spec fn sort_id(&self) -> Seq<char> {
        self.id@
    }

    fn before(&self, other: &Self) -> (b: bool) {
        by_name(self.name.as_str(), self.id.as_str(), other.name.as_str(), other.id.as_str())
    }
}

/// `v` sums up recipe `r` for the library screen.
pub open spec fn summary_of(v: RecipeSummaryView, r: Recipe) -> bool {
    &&& v.id@ == r.id@
    &&& v.name@ == r.name@
    &&& v.servings == r.servings.count()
    &&& match r.yields {
        Some(y) => v.yields matches Some(q) && shows_quantity(q, y),
        None => v.yields is None,
    }
    &&& v.ingredients == ingredient_usages_in(r.components@).len()
    &&& v.sub_recipes == sub_recipes_in(r.components@).len()
}

/// `vs` sums up every recipe of `library`, once each, in name order.
pub open spec fn summaries_of(vs: Seq<RecipeSummaryView>, library: Library) -> bool {
    &&& sorted_by_name(vs)
    &&& exists|u: Seq<RecipeSummaryView>|
        #![trigger u.to_multiset()]
        u.len() == library.recipes.entries().len() && (forall|i: int|
            0 <= i < u.len() ==> summary_of(#[trigger] u[i], library.recipes.entries()[i]))
            && vs.to_multiset() == u.to_multiset()
}

/// Every recipe of the library, summed up, in name order.
pub fn recipe_summaries(library: &Library) -> (r: Vec<RecipeSummaryView>)
    ensures
        summaries_of(r@, *library),
{
    let recipes = library.recipes.values();
    let mut unsorted: Vec<RecipeSummaryView> = Vec::new();
    let mut i: usize = 0;
    while i < recipes.len()
        invariant
            i <= recipes@.len(),
            recipes@ == library.recipes.entries(),
            unsorted@.len() == i,
            forall|k: int| 0 <= k < i ==> summary_of(#[trigger] unsorted@[k], recipes@[k]),
        decreases recipes@.len() - i,
    {
        let recipe = &recipes[i];
        unsorted.push(RecipeSummaryView {
            id: recipe.id.as_str().to_owned(),
            name: recipe.name.as_str().to_owned(),
            servings: recipe.servings.get(),
            yields: match &recipe.yields {
                Some(q) => Some(QuantityView::of(q)),
                None => None,
            },
            ingredients: recipe.ingredient_usages().len(),
            sub_recipes: recipe.sub_recipes().len(),
        });
        i = i + 1;
    }
    let ghost u = unsorted@;
    let r = sort_by_name(unsorted);
    proof {
        assert(u.len() == library.recipes.entries().len() && (forall|i: int| 0 <= i < u.len() ==> summary_of(#[trigger] u[i], library.recipes.entries()[i]))
            && r@.to_multiset() == u.to_multiset());
        assert(summaries_of(r@, *library));
    }
    r
}

/// The text of a coefficient, exactly as an edit form would hold it.
pub open spec fn coefficient_text(c: Option<Rational>) -> Option<Seq<char>> {
    match c {
        Some(v) => Some(lossless_text(v.num(), v.den())),
        None => None,
    }
}

/// `v` shows ingredient `i` on the library screen.
pub open spec fn ingredient_view_of(v: IngredientView, i: Ingredient) -> bool {
    &&& v.id@ == i.id@
    &&& v.name@ == i.name@
    &&& v.aliases@.len() == i.aliases@.len()
    &&& (forall|k: int| 0 <= k < v.aliases@.len() ==> (#[trigger] v.aliases@[k])@ == i.aliases@[k]@)
    &&& v.aisle == aisle_tag(i.aisle)
    &&& v.staple == i.staple
    &&& opt_text(v.density) == coefficient_text(i.density)
    &&& opt_text(v.unit_weight) == coefficient_text(i.unit_weight)
}

fn coefficient_view(c: Option<Rational>) -> (r: Option<String>)
    ensures
        opt_text(r) == coefficient_text(c),
{
    match c {
        Some(v) => Some(render_lossless(v)),
        None => None,
    }
}

/// `vs` shows every ingredient of `library`, once each, in name order.
pub open spec fn ingredients_of(vs: Seq<IngredientView>, library: Library) -> bool {
    &&& sorted_by_name(vs)
    &&& exists|u: Seq<IngredientView>|
        #![trigger u.to_multiset()]
        u.len() == library.ingredients.entries().len() && (forall|i: int|
            0 <= i < u.len() ==> ingredient_view_of(#[trigger] u[i], library.ingredients.entries()[i].1))
            && vs.to_multiset() == u.to_multiset()
}

/// Every ingredient of the library, in name order.
pub fn ingredient_views(library: &Library) -> (r: Vec<IngredientView>)
    ensures
        ingredients_of(r@, *library),
{
    let ingredients = library.ingredients.values();
    let mut unsorted: Vec<IngredientView> = Vec::new();
    let mut i: usize = 0;
    while i < ingredients.len()
        invariant
            i <= ingredients@.len(),
            ingredients@.len() == library.ingredients.entries().len(),
            forall|k: int| 0 <= k < ingredients@.len() ==> *ingredients@[k] == library.ingredients.entries()[k].1,
            unsorted@.len() == i,
            forall|k: int| 0 <= k < i ==> ingredient_view_of(#[trigger] unsorted@[k], library.ingredients.entries()[k].1),
        decreases ingredients@.len() - i,
    {
        let ingredient = ingredients[i];
        let mut aliases: Vec<String> = Vec::new();
        let mut j: usize = 0;
        while j < ingredient.aliases.len()
            invariant
                j <= ingredient.aliases@.len(),
                aliases@.len() == j,
                forall|k: int| 0 <= k < j ==> (#[trigger] aliases@[k])@ == ingredient.aliases@[k]@,
            decreases ingredient.aliases@.len() - j,
        {
            aliases.push(ingredient.aliases[j].as_str().to_owned());
            j = j + 1;
        }
        unsorted.push(IngredientView {
            id: ingredient.id.as_str().to_owned(),
            name: ingredient.name.as_str().to_owned(),
            aliases,
            aisle: AisleTag::from(ingredient.aisle),
            staple: ingredient.staple,
            density: coefficient_view(ingredient.density),
            unit_weight: coefficient_view(ingredient.unit_weight),
        });
        i = i + 1;
    }
    let ghost u = unsorted@;
    let r = sort_by_name(unsorted);
    proof {
        assert(u.len() == library.ingredients.entries().len() && (forall|i: int| 0 <= i < u.len() ==> ingredient_view_of(#[trigger] u[i], library.ingredients.entries()[i].1))
            && r@.to_multiset() == u.to_multiset());
        assert(ingredients_of(r@, *library));
    }
    r
}

/// `v` shows user `u` of the family: who they are, whether they are the
/// person on this device, and the devices they carry.
pub open spec fn person_view_of(v: PersonView, u: User, devices: Seq<Device>, me: Seq<char>, this_device: Seq<char>) -> bool {
    let own = owned_by(devices, u.id@);
    &&& v.id@ == u.id@
    &&& v.name@ == u.name@
    &&& v.is_me == (u.id@ == me)
    &&& v.devices@.len() == own.len()
    &&& forall|k: int| 0 <= k < own.len() ==> {
        &&& (#[trigger] v.devices@[k]).id@ == own[k].id@
        &&& v.devices@[k].name@ == own[k].name@
        &&& v.devices@[k].is_this_one == (own[k].id@ == this_device)
        &&& v.devices@[k].paired_at == own[k].paired_at.0
    }
}

/// `vs` is the family roster of `library`, seen from `identity`'s device.
pub open spec fn people_of(vs: Seq<PersonView>, library: Library, identity: Identity) -> bool {
    &&& vs.len() == library.users@.len()
    &&& forall|i: int|
        0 <= i < vs.len() ==> person_view_of(
            #[trigger] vs[i],
            library.users@[i],
            library.devices@,
            identity.user@,
            identity.device@,
        )
}

/// The family roster: everyone in the document, each with what they carry.
/// A device whose owner is not in the roster is invisible here.
pub fn people_views(library: &Library, identity: &Identity) -> (r: Vec<PersonView>)
    ensures
        people_of(r@, *library, *identity),
{
    let me = identity.user_id();
    let this_device = identity.device_id();
    let mut out: Vec<PersonView> = Vec::new();
    let mut i: usize = 0;
    while i < library.users.len()
        invariant
            i <= library.users@.len(),
            me@ == identity.user@,
            this_device@ == identity.device@,
            out@.len() == i,
            forall|k: int| 0 <= k < i ==> person_view_of(#[trigger] out@[k], library.users@[k], library.devices@, identity.user@, identity.device@),
        decreases library.users@.len() - i,
    {
        let user = &library.users[i];
        let own = devices_of(library.devices.as_slice(), &user.id);
        let mut devices: Vec<DeviceView> = Vec::new();
        let mut j: usize = 0;
        while j < own.len()
            invariant
                j <= own@.len(),
                own@ == owned_by(library.devices@, user.id@),
                this_device@ == identity.device@,
                devices@.len() == j,
                forall|k: int| 0 <= k < j ==> {
                    &&& (#[trigger] devices@[k]).id@ == own@[k].id@
                    &&& devices@[k].name@ == own@[k].name@
                    &&& devices@[k].is_this_one == (own@[k].id@ == identity.device@)
                    &&& devices@[k].paired_at == own@[k].paired_at.0
                },
            decreases own@.len() - j,
        {
            let device = &own[j];
            devices.push(DeviceView {
                id: device.id.as_str().to_owned(),
                name: device.name.as_str().to_owned(),
                is_this_one: device.id.same(&this_device),
                paired_at: device.paired_at.0,
            });
            j = j + 1;
        }
        out.push(PersonView {
            id: user.id.as_str().to_owned(),
            name: user.name.as_str().to_owned(),
            is_me: user.id.same(&me),
            devices,
        });
        i = i + 1;
    }
    out
}


/// A problem as values.
pub struct Problem {
    pub entry: Option<Seq<char>>,
    pub subject: Option<Seq<char>>,
    pub kind: ProblemKind,
    pub detail: Seq<char>,
}

/// What `v` says, as values.
pub open spec fn fact(v: ProblemView) -> Problem {
    Problem { entry: opt_text(v.entry), subject: opt_text(v.subject), kind: v.kind, detail: v.detail@ }
}

/// What each of `vs` says.
pub open spec fn facts(vs: Seq<ProblemView>) -> Seq<Problem> {
    vs.map_values(|v: ProblemView| fact(v))
}

fn problem(entry: Option<&str>, subject: Option<&str>, kind: ProblemKind, detail: String) -> (v: ProblemView)
    ensures
        fact(v) == (Problem { entry: text_of(entry), subject: text_of(subject), kind, detail: detail@ }),
{
    ProblemView {
        entry: match entry {
            Some(e) => Some(e.to_owned()),
            None => None,
        },
        subject: match subject {
            Some(s) => Some(s.to_owned()),
            None => None,
        },
        kind,
        detail,
    }
}

/// The problem an expansion fault of list entry `entry` is reported as:
/// what kind of breakage, and the recipe it lies at.
pub open spec fn expansion_fact(entry: Seq<char>, f: ExpandFault) -> Problem {
    let (kind, subject) = match f {
        ExpandFault::UnknownRecipe(r) => (ProblemKind::MissingRecipe, Some(r)),
        ExpandFault::Cycle(path) => (ProblemKind::BrokenGraph, if path.len() > 0 {
            Some(path.last())
        } else {
            None
        }),
        ExpandFault::DepthExceeded(r) => (ProblemKind::BrokenGraph, Some(r)),
        ExpandFault::MissingYield(r) => (ProblemKind::BrokenYield, Some(r)),
        ExpandFault::UnmeasurableYield(r) => (ProblemKind::BrokenYield, Some(r)),
        ExpandFault::ZeroYield(r) => (ProblemKind::BrokenYield, Some(r)),
        ExpandFault::YieldDimensionMismatch { recipe, .. } => (ProblemKind::BrokenYield, Some(recipe)),
        ExpandFault::Overflow => (ProblemKind::BrokenGraph, None),
    };
    Problem { entry: Some(entry), subject, kind, detail: expand_message(f) }
}

fn expansion_problem(entry: &str, error: &ExpandError) -> (v: ProblemView)
    ensures
        fact(v) == expansion_fact(entry@, error@),
{
    let (kind, subject): (ProblemKind, Option<&str>) = match error {
        ExpandError::UnknownRecipe(recipe) => (ProblemKind::MissingRecipe, Some(recipe.as_str())),
        ExpandError::Cycle(path) => (ProblemKind::BrokenGraph, if path.len() > 0 {
            proof {
                assert(ids(path@).last() == path@[path@.len() - 1]@);
            }
            Some(path[path.len() - 1].as_str())
        } else {
            None
        }),
        ExpandError::DepthExceeded(recipe) => (ProblemKind::BrokenGraph, Some(recipe.as_str())),
        ExpandError::MissingYield(recipe) => (ProblemKind::BrokenYield, Some(recipe.as_str())),
        ExpandError::UnmeasurableYield(recipe) => (ProblemKind::BrokenYield, Some(recipe.as_str())),
        ExpandError::ZeroYield(recipe) => (ProblemKind::BrokenYield, Some(recipe.as_str())),
        ExpandError::YieldDimensionMismatch { recipe, .. } => (ProblemKind::BrokenYield, Some(recipe.as_str())),
        ExpandError::Overflow => (ProblemKind::BrokenGraph, None),
    };
    problem(Some(entry), subject, kind, error.message())
}

/// The placeholder a deleted ingredient is kept visible under: its id as
/// its name, in the "other" aisle.
pub open spec fn placeholder_for(p: Ingredient, id: Seq<char>) -> bool {
    &&& p.id@ == id
    &&& p.name@ == id
    &&& p.aliases@.len() == 0
    &&& p.aisle == Aisle::Other
    &&& !p.staple
    &&& p.density is None
    &&& p.unit_weight is None
}

/// How far triage has got: the entries kept, the ids given a placeholder,
/// and the problems found.
pub struct Triage {
    pub usable: Seq<ListEntry>,
    pub filled: Seq<Seq<char>>,
    pub problems: Seq<Problem>,
}

/// The library has `k`, or triage has filled it in.
pub open spec fn known(library: Library, t: Triage, k: Seq<char>) -> bool {
    library.ingredients.spec_get(k) is Some || t.filled.contains(k)
}

/// Keeps `k` visible for entry `entry`: a placeholder and a problem for an
/// ingredient nobody has.
pub open spec fn fill(library: Library, t: Triage, k: Seq<char>, entry: Seq<char>) -> Triage {
    if known(library, t, k) {
        t
    } else {
        Triage {
            usable: t.usable,
            filled: t.filled.push(k),
            problems: t.problems.push(
                Problem {
                    entry: Some(entry),
                    subject: Some(k),
                    kind: ProblemKind::MissingIngredient,
                    detail: "ingredient `"@ + k + "` is not in the library"@,
                },
            ),
        }
    }
}

/// [`fill`] for every contribution of an entry, in order.
pub open spec fn fill_all(library: Library, t: Triage, cs: Seq<Contribution>, entry: Seq<char>) -> Triage
    decreases cs.len(),
{
    if cs.len() == 0 {
        t
    } else {
        fill(library, fill_all(library, t, cs.drop_last(), entry), cs.last().ingredient@, entry)
    }
}

/// `t` with `e` kept.
pub open spec fn keep(t: Triage, e: ListEntry) -> Triage {
    Triage { usable: t.usable.push(e), filled: t.filled, problems: t.problems }
}

/// `t` with problem `p` found.
pub open spec fn report(t: Triage, p: Problem) -> Triage {
    Triage { usable: t.usable, filled: t.filled, problems: t.problems.push(p) }
}

/// Triage of one list entry: a recipe that is gone, or that does not
/// expand, is set aside with a problem; anything else is kept, with every
/// ingredient it needs made visible.
pub open spec fn triage_entry(library: Library, t: Triage, e: ListEntry) -> Triage {
    match e.item {
        ListItem::Recipe { recipe, servings } => match library.recipes.spec_get(recipe@) {
            None => report(
                t,
                Problem {
                    entry: Some(e.id@),
                    subject: Some(recipe@),
                    kind: ProblemKind::MissingRecipe,
                    detail: "recipe `"@ + recipe@ + "` is not in the library"@,
                },
            ),
            Some(target) => match spec_expand(
                recipe@,
                make(servings.count(), target.servings.count())->0,
                library.recipes,
            ) {
                Ok(cs) => keep(fill_all(library, t, cs, e.id@), e),
                Err(f) => report(t, expansion_fact(e.id@, f)),
            },
        },
        ListItem::Ingredient { ingredient, .. } => keep(fill(library, t, ingredient@, e.id@), e),
    }
}

/// Triage of `entries`, in list order.
pub open spec fn triage(library: Library, entries: Seq<ListEntry>) -> Triage
    decreases entries.len(),
{
    if entries.len() == 0 {
        Triage { usable: seq![], filled: seq![], problems: seq![] }
    } else {
        triage_entry(library, triage(library, entries.drop_last()), entries.last())
    }
}

/// `ix` is the library's ingredients, with a placeholder for every id in
/// `filled` the library does not have.
pub open spec fn patched(ix: IngredientIndex, library: Library, filled: Seq<Seq<char>>) -> bool {
    forall|k: Seq<char>|
        #![trigger ix.spec_get(k)]
        match library.ingredients.spec_get(k) {
            Some(i) => ix.spec_get(k) matches Some(j) && same_ingredient(j, i),
            None => if filled.contains(k) {
                ix.spec_get(k) matches Some(p) && placeholder_for(p, k)
            } else {
                ix.spec_get(k) is None
            },
        }
}

/// Keeps a deleted ingredient visible instead of taking the whole entry down
/// with it. The placeholder carries the id as its name — unhelpful to read,
/// but it is the only thing left to say about it, and it makes the row
/// identifiable next to the warning that accompanies it.
fn fill_missing(
    ingredients: &mut IngredientIndex,
    id: &IngredientId,
    entry: &str,
    problems: &mut Vec<ProblemView>,
    Ghost(library): Ghost<Library>,
    Ghost(t): Ghost<Triage>,
)
    requires
        patched(*old(ingredients), library, t.filled),
        facts(old(problems)@) == t.problems,
    ensures
        patched(*final(ingredients), library, fill(library, t, id@, entry@).filled),
        facts(final(problems)@) == fill(library, t, id@, entry@).problems,
{
    if ingredients.contains_key(id) {
        proof {
            if !known(library, t, id@) {
                assert(old(ingredients).spec_get(id@) is Some);
            }
        }
        return;
    }
    let mut detail: Vec<char> = Vec::new();
    push_str(&mut detail, "ingredient `");
    push_str(&mut detail, id.as_str());
    push_str(&mut detail, "` is not in the library");
    let v = problem(Some(entry), Some(id.as_str()), ProblemKind::MissingIngredient, string_of(&detail));
    let ghost before = problems@;
    problems.push(v);
    proof {
        assert(facts(problems@) =~= facts(before).push(fact(v)));
    }
    let ghost old_ix = *ingredients;
    ingredients.insert(id.clone(), Ingredient::new(id.clone(), id.as_str(), Aisle::Other));
    proof {
        let t2 = fill(library, t, id@, entry@);
        assert(!known(library, t, id@)) by {
            if library.ingredients.spec_get(id@) is Some {
                assert(old_ix.spec_get(id@) is Some);
            } else if t.filled.contains(id@) {
                assert(old_ix.spec_get(id@) is Some);
            }
        }
        assert forall|k: Seq<char>| #![trigger ingredients.spec_get(k)] true implies match library.ingredients.spec_get(k) {
            Some(i) => ingredients.spec_get(k) matches Some(j) && same_ingredient(j, i),
            None => if t2.filled.contains(k) {
                ingredients.spec_get(k) matches Some(p) && placeholder_for(p, k)
            } else {
                ingredients.spec_get(k) is None
            },
        } by {
            assert(old_ix.spec_get(k) == old_ix.spec_get(k));
            if k != id@ {
                assert(t2.filled.contains(k) == t.filled.contains(k)) by {
                    if t2.filled.contains(k) {
                        let j = choose|j: int| 0 <= j < t2.filled.len() && t2.filled[j] == k;
                        assert(j < t.filled.len());
                        assert(t.filled[j] == k);
                    }
                    if t.filled.contains(k) {
                        let j = choose|j: int| 0 <= j < t.filled.len() && t.filled[j] == k;
                        assert(t2.filled[j] == k);
                    }
                }
            } else {
                assert(t2.filled[t2.filled.len() - 1] == k);
            }
        }
    }
}

/// The cart, plus everything the list could not make sense of.
pub struct Projection {
    pub cart: Cart,
    pub problems: Vec<ProblemView>,
}

/// `r` is what [`derive`] makes of `library`.
pub open spec fn projects(r: Projection, library: Library) -> bool {
    let t = triage(library, library.list.entries@);
    exists|ix: IngredientIndex|
        #![trigger patched(ix, library, t.filled)]
        patched(ix, library, t.filled) && match spec_demands(t.usable, library.recipes) {
        Err(f) => r.cart.lines@.len() == 0 && facts(r.problems@) == t.problems.push(
            Problem { entry: None, subject: None, kind: ProblemKind::BrokenGraph, detail: cart_message(f) },
        ),
        Ok(ds) => if forall|k: Seq<char>| asked(ds, k) ==> line_fault(ds, k, ix) is None {
            shows(r.cart.lines@, ds, ix, library.overlay) && facts(r.problems@) == t.problems
        } else {
            r.cart.lines@.len() == 0 && exists|k: Seq<char>|
                first_fault(ds, ix, k) && (line_fault(ds, k, ix) matches Some(f) && facts(r.problems@)
                    == t.problems.push(
                    Problem { entry: None, subject: None, kind: ProblemKind::BrokenGraph, detail: cart_message(f) },
                ))
        },
    }
}

/// Triages the list, then derives the cart from what survives.
///
/// The cart is what [`crate::cart::derive`] draws up for the usable entries
/// over the library's ingredients with a placeholder for each missing one;
/// should that still fail — only an amount too large to stay exact can make
/// it — the cart is empty and the failure is one more problem.
pub fn derive(library: &Library) -> (r: Projection)
    ensures
        projects(r, *library),
{
    let mut problems: Vec<ProblemView> = Vec::new();
    let mut usable = ShoppingList::new();
    let mut ingredients = library.ingredients.copy();
    let ghost entries = library.list.entries@;
    proof {
        assert(facts(problems@) =~= Seq::<Problem>::empty());
        assert(usable.entries@ =~= Seq::<ListEntry>::empty());
        assert forall|k: Seq<char>| #![trigger ingredients.spec_get(k)] true implies match library.ingredients.spec_get(k) {
            Some(i) => ingredients.spec_get(k) matches Some(j) && same_ingredient(j, i),
            None => ingredients.spec_get(k) is None,
        } by {
            assert(same_filing(ingredients.spec_get(k), library.ingredients.spec_get(k)));
        }
        assert(triage(*library, entries.take(0)) == Triage { usable: seq![], filled: seq![], problems: seq![] });
    }
    let mut i: usize = 0;
    while i < library.list.entries.len()
        invariant
            i <= entries.len(),
            entries == library.list.entries@,
            usable.entries@ == triage(*library, entries.take(i as int)).usable,
            facts(problems@) == triage(*library, entries.take(i as int)).problems,
            patched(ingredients, *library, triage(*library, entries.take(i as int)).filled),
        decreases entries.len() - i,
    {
        let entry = &library.list.entries[i];
        let ghost t = triage(*library, entries.take(i as int));
        proof {
            assert(entries.take(i + 1).drop_last() =~= entries.take(i as int));
            assert(entries.take(i + 1).last() == *entry);
        }
        let id = entry.id.as_str();
        match &entry.item {
            ListItem::Recipe { recipe, servings } => {
                match library.recipes.get(recipe) {
                    None => {
                        let mut detail: Vec<char> = Vec::new();
                        push_str(&mut detail, "recipe `");
                        push_str(&mut detail, recipe.as_str());
                        push_str(&mut detail, "` is not in the library");
                        let v = problem(Some(id), Some(recipe.as_str()), ProblemKind::MissingRecipe, string_of(&detail));
                        let ghost before = problems@;
                        problems.push(v);
                        proof {
                            assert(facts(problems@) =~= facts(before).push(fact(v)));
                        }
                    },
                    Some(target) => {
                        let factor = target.factor_for_servings(*servings);
                        match expand(recipe, factor, &library.recipes) {
                            Ok(contributions) => {
                                let ghost cs = contributions@;
                                let mut j: usize = 0;
                                proof {
                                    assert(cs.take(0) =~= Seq::<Contribution>::empty());
                                }
                                while j < contributions.len()
                                    invariant
                                        j <= cs.len(),
                                        cs == contributions@,
                                        id@ == entry.id@,
                                        facts(problems@) == fill_all(*library, t, cs.take(j as int), entry.id@).problems,
                                        patched(ingredients, *library, fill_all(*library, t, cs.take(j as int), entry.id@).filled),
                                        fill_all(*library, t, cs.take(j as int), entry.id@).usable == t.usable,
                                    decreases cs.len() - j,
                                {
                                    proof {
                                        assert(cs.take(j + 1).drop_last() =~= cs.take(j as int));
                                        assert(cs.take(j + 1).last() == cs[j as int]);
                                    }
                                    fill_missing(
                                        &mut ingredients,
                                        &contributions[j].ingredient,
                                        id,
                                        &mut problems,
                                        Ghost(*library),
                                        Ghost(fill_all(*library, t, cs.take(j as int), entry.id@)),
                                    );
                                    proof {
                                        assert(fill_all(*library, t, cs.take(j + 1), entry.id@) == fill(
                                            *library,
                                            fill_all(*library, t, cs.take(j as int), entry.id@),
                                            cs[j as int].ingredient@,
                                            entry.id@,
                                        ));
                                    }
                                    j = j + 1;
                                }
                                proof {
                                    assert(cs.take(j as int) =~= cs);
                                }
                                usable.entries.push(entry.clone());
                            },
                            Err(error) => {
                                let v = expansion_problem(id, &error);
                                let ghost before = problems@;
                                problems.push(v);
                                proof {
                                    assert(facts(problems@) =~= facts(before).push(fact(v)));
                                }
                            },
                        }
                    },
                }
            },
            ListItem::Ingredient { ingredient, .. } => {
                fill_missing(&mut ingredients, ingredient, id, &mut problems, Ghost(*library), Ghost(t));
                usable.entries.push(entry.clone());
            },
        }
        i = i + 1;
    }
    proof {
        assert(entries.take(i as int) =~= entries);
    }
    let cart = match crate::cart::derive(&usable, &library.recipes, &ingredients, &library.overlay) {
        Ok(cart) => cart,
        Err(error) => {
            let v = problem(None, None, ProblemKind::BrokenGraph, error.message());
            let ghost before = problems@;
            problems.push(v);
            proof {
                assert(facts(problems@) =~= facts(before).push(fact(v)));
            }
            Cart { lines: Vec::new() }
        },
    };
    Projection { cart, problems }
}


fn copy_problem(p: &ProblemView) -> (r: ProblemView)
    ensures
        fact(r) == fact(*p),
{
    ProblemView {
        entry: match &p.entry {
            Some(e) => Some(e.as_str().to_owned()),
            None => None,
        },
        subject: match &p.subject {
            Some(e) => Some(e.as_str().to_owned()),
            None => None,
        },
        kind: p.kind,
        detail: p.detail.as_str().to_owned(),
    }
}

/// `v` is the whole screen for `library` with `projection` derived from it,
/// `focus` open, seen from `identity`'s device, at `revision`.
pub open spec fn state_of(
    v: StateView,
    library: Library,
    projection: Projection,
    focus: Option<Focus>,
    identity: Identity,
    revision: u64,
) -> bool {
    &&& v.revision == revision
    &&& v.me.id@ == identity.user@
    &&& v.me.name@ == match name_of(library.users@, identity.user@) {
        Some(n) => n,
        None => identity.user_name@,
    }
    &&& people_of(v.people@, library, identity)
    &&& cart_view_of(v.cart, library, projection.cart)
    &&& list_view_of(v.list@, library, projection.cart)
    &&& summaries_of(v.recipes@, library)
    &&& ingredients_of(v.ingredients@, library)
    &&& match focus {
        Some(f) => focus_of(v.focus, library, f),
        None => v.focus is None,
    }
    &&& facts(v.problems@) == facts(projection.problems@)
}

/// The longest the journal on screen grows.
pub const JOURNAL_CAP: usize = 200;

/// `v` shows the event `e`: when, by whom as the document names them,
/// whether by this device's person, what was done to what, and the label.
pub open spec fn event_view_of(v: EventView, e: Event, library: Library, identity: Identity) -> bool {
    &&& v.at == e.at.0
    &&& match name_of(library.users@, e.by@) {
        Some(n) => v.by matches Some(b) && b@ == n,
        None => v.by is None,
    }
    &&& v.by_me == (e.by@ == identity.user@)
    &&& v.action == match e.action {
        Action::Edited => ActionTag::Edited,
        Action::Deleted => ActionTag::Deleted,
    }
    &&& match e.subject {
        Subject::Recipe(id) => v.subject matches SubjectTag::Recipe { id: x } && x@ == id@,
        Subject::Ingredient(id) => v.subject matches SubjectTag::Ingredient { id: x } && x@ == id@,
        Subject::ListEntry(id) => v.subject matches SubjectTag::ListEntry { id: x } && x@ == id@,
    }
    &&& v.label@ == e.label@
}

/// `vs` is the journal of `events`: the newest first, at most
/// [`JOURNAL_CAP`] of them.
pub open spec fn journal_of(vs: Seq<EventView>, library: Library, events: Seq<Event>, identity: Identity) -> bool {
    &&& vs.len() == if events.len() > JOURNAL_CAP { JOURNAL_CAP as int } else { events.len() as int }
    &&& forall|k: int| 0 <= k < vs.len() ==> event_view_of(#[trigger] vs[k], events[events.len() - 1 - k], library, identity)
}

/// One event, as the journal shows it.
fn event_view(library: &Library, e: &Event, identity: &Identity) -> (v: EventView)
    ensures
        event_view_of(v, *e, *library, *identity),
{
    let by = match library.user_name(&e.by) {
        Some(n) => Some(n.to_owned()),
        None => None,
    };
    let by_me = e.by.same(&identity.user_id());
    let action = match e.action {
        Action::Edited => ActionTag::Edited,
        Action::Deleted => ActionTag::Deleted,
    };
    let subject = match &e.subject {
        Subject::Recipe(id) => SubjectTag::Recipe { id: id.as_str().to_owned() },
        Subject::Ingredient(id) => SubjectTag::Ingredient { id: id.as_str().to_owned() },
        Subject::ListEntry(id) => SubjectTag::ListEntry { id: id.as_str().to_owned() },
    };
    EventView { at: e.at.0, by, by_me, action, subject, label: e.label.as_str().to_owned() }
}

/// The journal: what has been edited and deleted, newest first, capped.
pub fn journal(library: &Library, events: &EventLog, identity: &Identity) -> (r: Vec<EventView>)
    ensures
        journal_of(r@, *library, events.events@, *identity),
{
    let n = events.events.len();
    let start = if n > JOURNAL_CAP {
        n - JOURNAL_CAP
    } else {
        0
    };
    let mut out: Vec<EventView> = Vec::new();
    let mut i = n;
    while i > start
        invariant
            start <= i <= n,
            n == events.events@.len(),
            start == (if n > JOURNAL_CAP { n - JOURNAL_CAP } else { 0 }),
            out@.len() == n - i,
            forall|k: int| 0 <= k < out@.len() ==> event_view_of(#[trigger] out@[k], events.events@[n - 1 - k], *library, *identity),
        decreases i,
    {
        i = i - 1;
        out.push(event_view(library, &events.events[i], identity));
    }
    out
}

/// The whole screen. The name shown for the person on this device is the
/// document's: it may have been changed from another device since this one
/// launched.
pub fn state(library: &Library, projection: &Projection, focus: Option<&Focus>, identity: &Identity, events: &EventLog, revision: u64) -> (v: StateView)
    ensures
        state_of(v, *library, *projection, match focus {
            Some(f) => Some(*f),
            None => None,
        }, *identity, revision),
        journal_of(v.events@, *library, events.events@, *identity),
{
    let me = identity.user_id();
    let name = match library.user_name(&me) {
        Some(n) => n.to_owned(),
        None => identity.user_name.as_str().to_owned(),
    };
    let mut problems: Vec<ProblemView> = Vec::new();
    let mut i: usize = 0;
    while i < projection.problems.len()
        invariant
            i <= projection.problems@.len(),
            problems@.len() == i,
            forall|k: int| 0 <= k < i ==> fact(#[trigger] problems@[k]) == fact(projection.problems@[k]),
        decreases projection.problems@.len() - i,
    {
        problems.push(copy_problem(&projection.problems[i]));
        i = i + 1;
    }
    proof {
        assert(facts(problems@) =~= facts(projection.problems@));
    }
    StateView {
        revision,
        me: UserView { id: identity.user.as_str().to_owned(), name },
        people: people_views(library, identity),
        events: journal(library, events, identity),
        cart: cart_view(library, &projection.cart),
        list: list_view(library, &projection.cart),
        recipes: recipe_summaries(library),
        ingredients: ingredient_views(library),
        focus: match focus {
            Some(f) => focus_view(library, f),
            None => None,
        },
        problems,
    }
}

} // verus!
