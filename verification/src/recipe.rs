//! Recipes: ingredient usages, sub-recipe references, and instruction steps
//! whose quantities re-render at the scaled amount.

use vstd::prelude::*;

use crate::ids::{IngredientId, RecipeId, UsageId};
use crate::quantity::Quantity;
use crate::rational::{lemma_make_small, make, Rational};

verus! {

/// A count of people: never zero, by construction.
#[derive(Debug, Clone, Copy, PartialEq, Eq, Hash, Structural)]
pub struct Servings(u32);

impl Servings {
    #[verifier::type_invariant]
    closed spec fn positive(self) -> bool {
        self.0 > 0
    }

    pub closed spec fn count(self) -> int {
        self.0 as int
    }

    /// A count fits a `u32`.
    pub proof fn lemma_count_fits(self)
        ensures
            0 <= self.count() <= u32::MAX,
    {
    }

    /// `None` for zero: a recipe serves at least one person.
    pub fn new(n: u32) -> (r: Option<Servings>)
        ensures
            r is Some <==> n > 0,
            r matches Some(s) ==> s.count() == n,
    {
        if n == 0 {
            None
        } else {
            Some(Servings(n))
        }
    }

    pub fn get(&self) -> (n: u32)
        ensures
            n == self.count(),
            n > 0,
    {
        proof {
            use_type_invariant(self);
        }
        self.0
    }
}

/// One line of a recipe's ingredient list.
///
/// Steps reference a *usage*, never an ingredient: a recipe may use flour
/// twice, in different amounts, in different steps.
#[derive(Debug, PartialEq, Eq)]
pub struct IngredientUsage {
    pub id: UsageId,
    pub ingredient: IngredientId,
    pub quantity: Quantity,
}

impl Clone for IngredientUsage {
    fn clone(&self) -> (r: Self)
        ensures
            r == *self,
    {
        IngredientUsage {
            id: self.id.clone(),
            ingredient: self.ingredient.clone(),
            quantity: self.quantity,
        }
    }
}

/// How much of a sub-recipe a parent needs.
#[derive(Debug, Clone, Copy, PartialEq, Eq)]
pub enum SubRecipeAmount {
    /// A multiple of the sub-recipe exactly as written: `1/2` of it.
    Factor(Rational),
    /// An absolute amount of what the sub-recipe yields: 200 g of a pastry
    /// that yields 500 g. Requires the sub-recipe to declare a yield.
    OfYield(Quantity),
}

#[derive(Debug, PartialEq, Eq)]
pub struct SubRecipeUsage {
    pub id: UsageId,
    pub recipe: RecipeId,
    pub amount: SubRecipeAmount,
}

impl Clone for SubRecipeUsage {
    fn clone(&self) -> (r: Self)
        ensures
            r == *self,
    {
        SubRecipeUsage { id: self.id.clone(), recipe: self.recipe.clone(), amount: self.amount }
    }
}

#[derive(Debug, PartialEq, Eq)]
pub enum Component {
    Ingredient(IngredientUsage),
    SubRecipe(SubRecipeUsage),
}

impl Clone for Component {
    fn clone(&self) -> (r: Self)
        ensures
            r == *self,
    {
        match self {
            Component::Ingredient(u) => Component::Ingredient(u.clone()),
            Component::SubRecipe(s) => Component::SubRecipe(s.clone()),
        }
    }
}

/// How an ingredient reference renders inside an instruction step.
#[derive(Debug, Clone, Copy, PartialEq, Eq, Structural)]
pub enum RefDisplay {
    /// "200 g of flour" — the first mention.
    Full,
    /// "the flour" — a later mention, no quantity repeated.
    NameOnly,
    /// "200 g" — the ingredient is already obvious from the sentence.
    QuantityOnly,
}

/// A run of instruction text, or a reference that renders as a scaled
/// quantity. Storing steps as segments rather than a string with embedded
/// markers is what keeps a user edit from breaking a reference.
#[derive(Debug, Clone, PartialEq, Eq)]
pub enum Segment {
    Text(String),
    Ingredient { usage: UsageId, display: RefDisplay },
}

#[derive(Debug, Clone, PartialEq, Eq, Default)]
pub struct Step {
    pub segments: Vec<Segment>,
}

impl Step {
    /// A step made of one run of text.
    pub fn text(s: &str) -> (r: Step)
        ensures
            r.segments@.len() == 1,
            r.segments@[0] matches Segment::Text(t) && t@ == s@,
    {
        let mut segments = Vec::new();
        segments.push(Segment::Text(s.to_owned()));
        Step { segments }
    }
}

#[derive(Debug, Clone, PartialEq, Eq)]
pub struct Recipe {
    pub id: RecipeId,
    pub name: String,
    /// How many people the quantities as written serve.
    pub servings: Servings,
    /// What the recipe produces, when it is meaningful — "makes 500 g".
    /// Required to reference this recipe by [`SubRecipeAmount::OfYield`].
    pub yields: Option<Quantity>,
    pub components: Vec<Component>,
    pub steps: Vec<Step>,
}

/// The first ingredient usage among `components` whose id is `id`.
pub open spec fn usage_in(components: Seq<Component>, id: Seq<char>) -> Option<IngredientUsage>
    decreases components.len(),
{
    if components.len() == 0 {
        None
    } else {
        match components[0] {
            Component::Ingredient(u) if u.id@ == id => Some(u),
            _ => usage_in(components.drop_first(), id),
        }
    }
}

/// The ingredient usages among `components`, in order.
pub open spec fn ingredient_usages_in(components: Seq<Component>) -> Seq<IngredientUsage>
    decreases components.len(),
{
    if components.len() == 0 {
        seq![]
    } else {
        let rest = ingredient_usages_in(components.drop_last());
        match components.last() {
            Component::Ingredient(u) => rest.push(u),
            Component::SubRecipe(_) => rest,
        }
    }
}

/// The sub-recipe usages among `components`, in order.
pub open spec fn sub_recipes_in(components: Seq<Component>) -> Seq<SubRecipeUsage>
    decreases components.len(),
{
    if components.len() == 0 {
        seq![]
    } else {
        let rest = sub_recipes_in(components.drop_last());
        match components.last() {
            Component::SubRecipe(s) => rest.push(s),
            Component::Ingredient(_) => rest,
        }
    }
}

/// The references among `segments` that name no usage in `components`.
pub open spec fn dangling_in_segments(
    segments: Seq<Segment>,
    components: Seq<Component>,
) -> Seq<UsageId>
    decreases segments.len(),
{
    if segments.len() == 0 {
        seq![]
    } else {
        let rest = dangling_in_segments(segments.drop_last(), components);
        match segments.last() {
            Segment::Ingredient { usage, .. } => if usage_in(components, usage@) is None {
                rest.push(usage)
            } else {
                rest
            },
            Segment::Text(_) => rest,
        }
    }
}

/// The dangling references of every step, step after step.
pub open spec fn dangling_in_steps(steps: Seq<Step>, components: Seq<Component>) -> Seq<UsageId>
    decreases steps.len(),
{
    if steps.len() == 0 {
        seq![]
    } else {
        dangling_in_steps(steps.drop_last(), components) + dangling_in_segments(
            steps.last().segments@,
            components,
        )
    }
}

impl Recipe {
    pub fn new(id: RecipeId, name: &str, servings: Servings) -> (r: Recipe)
        ensures
            r.id == id,
            r.name@ == name@,
            r.servings == servings,
            r.yields is None,
            r.components@.len() == 0,
            r.steps@.len() == 0,
    {
        Recipe {
            id,
            name: name.to_owned(),
            servings,
            yields: None,
            components: Vec::new(),
            steps: Vec::new(),
        }
    }

    pub fn with_yield(self, quantity: Quantity) -> (r: Recipe)
        ensures
            r == (Recipe { yields: Some(quantity), ..self }),
    {
        Recipe { yields: Some(quantity), ..self }
    }

    pub fn with_component(self, component: Component) -> (r: Recipe)
        ensures
            r.id == self.id,
            r.name == self.name,
            r.servings == self.servings,
            r.yields == self.yields,
            r.components@ == self.components@.push(component),
            r.steps == self.steps,
    {
        let mut r = self;
        r.components.push(component);
        r
    }

    pub fn with_step(self, step: Step) -> (r: Recipe)
        ensures
            r.id == self.id,
            r.name == self.name,
            r.servings == self.servings,
            r.yields == self.yields,
            r.components == self.components,
            r.steps@ == self.steps@.push(step),
    {
        let mut r = self;
        r.steps.push(step);
        r
    }

    /// The ingredient usage a step reference `id` points at, if any.
    pub fn usage(&self, id: &UsageId) -> (r: Option<&IngredientUsage>)
        ensures
            r matches Some(u) ==> usage_in(self.components@, id@) == Some(*u),
            r is None ==> usage_in(self.components@, id@) is None,
    {
        let mut i: usize = 0;
        proof {
            assert(self.components@.skip(0) =~= self.components@);
        }
        while i < self.components.len()
            invariant
                i <= self.components@.len(),
                usage_in(self.components@, id@) == usage_in(self.components@.skip(i as int), id@),
            decreases self.components@.len() - i,
        {
            proof {
                assert(self.components@.skip(i as int)[0] == self.components@[i as int]);
                assert(self.components@.skip(i as int).drop_first() =~= self.components@.skip(
                    i + 1,
                ));
            }
            match &self.components[i] {
                Component::Ingredient(u) => {
                    if u.id.same(id) {
                        return Some(u);
                    }
                },
                Component::SubRecipe(_) => {},
            }
            i = i + 1;
        }
        None
    }

    /// The ingredient lines, in order.
    pub fn ingredient_usages(&self) -> (r: Vec<IngredientUsage>)
        ensures
            r@ == ingredient_usages_in(self.components@),
    {
        let mut r: Vec<IngredientUsage> = Vec::new();
        let mut i: usize = 0;
        while i < self.components.len()
            invariant
                i <= self.components@.len(),
                r@ == ingredient_usages_in(self.components@.take(i as int)),
            decreases self.components@.len() - i,
        {
            proof {
                assert(self.components@.take(i + 1).drop_last() =~= self.components@.take(
                    i as int,
                ));
            }
            match &self.components[i] {
                Component::Ingredient(u) => r.push(u.clone()),
                Component::SubRecipe(_) => {},
            }
            i = i + 1;
        }
        proof {
            assert(self.components@.take(i as int) =~= self.components@);
        }
        r
    }

    /// The sub-recipe lines, in order.
    pub fn sub_recipes(&self) -> (r: Vec<SubRecipeUsage>)
        ensures
            r@ == sub_recipes_in(self.components@),
    {
        let mut r: Vec<SubRecipeUsage> = Vec::new();
        let mut i: usize = 0;
        while i < self.components.len()
            invariant
                i <= self.components@.len(),
                r@ == sub_recipes_in(self.components@.take(i as int)),
            decreases self.components@.len() - i,
        {
            proof {
                assert(self.components@.take(i + 1).drop_last() =~= self.components@.take(
                    i as int,
                ));
            }
            match &self.components[i] {
                Component::SubRecipe(s) => r.push(s.clone()),
                Component::Ingredient(_) => {},
            }
            i = i + 1;
        }
        proof {
            assert(self.components@.take(i as int) =~= self.components@);
        }
        r
    }

    /// Step references that point at no existing usage, step after step.
    ///
    /// Strict referential integrity is impossible in a replicated document —
    /// one device deletes an ingredient while another references it — so
    /// this reports rather than prevents.
    pub fn dangling_refs(&self) -> (r: Vec<UsageId>)
        ensures
            r@ == dangling_in_steps(self.steps@, self.components@),
    {
        let mut r: Vec<UsageId> = Vec::new();
        let mut i: usize = 0;
        while i < self.steps.len()
            invariant
                i <= self.steps@.len(),
                r@ == dangling_in_steps(self.steps@.take(i as int), self.components@),
            decreases self.steps@.len() - i,
        {
            let segments = &self.steps[i].segments;
            let ghost before = r@;
            let mut j: usize = 0;
            while j < segments.len()
                invariant
                    j <= segments@.len(),
                    *segments == self.steps@[i as int].segments,
                    r@ == before + dangling_in_segments(segments@.take(j as int), self.components@),
                decreases segments@.len() - j,
            {
                proof {
                    assert(segments@.take(j + 1).drop_last() =~= segments@.take(j as int));
                }
                match &segments[j] {
                    Segment::Ingredient { usage, .. } => {
                        if self.usage(usage).is_none() {
                            r.push(usage.clone());
                            proof {
                                assert(r@ =~= before + dangling_in_segments(
                                    segments@.take(j + 1),
                                    self.components@,
                                ));
                            }
                        }
                    },
                    Segment::Text(_) => {},
                }
                j = j + 1;
            }
            proof {
                assert(segments@.take(j as int) =~= segments@);
                assert(self.steps@.take(i + 1).drop_last() =~= self.steps@.take(i as int));
            }
            i = i + 1;
        }
        proof {
            assert(self.steps@.take(i as int) =~= self.steps@);
        }
        r
    }

    /// The factor that takes this recipe from its written servings to
    /// `wanted`: exactly `wanted / servings`.
    pub fn factor_for_servings(&self, wanted: Servings) -> (r: Rational)
        ensures
            make(wanted.count(), self.servings.count()) == Some(r),
    {
        let w = wanted.get() as i128;
        let s = self.servings.get() as i128;
        proof {
            lemma_make_small(w as int, s as int);
        }
        Rational::new(w, s)
    }
}

} // verus!
