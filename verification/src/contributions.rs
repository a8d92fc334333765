//! What the ingredient lines of the planned meals add to a shopping list.

use vstd::prelude::*;
use crate::camp::Camp;
use crate::date::Date;
use crate::meal_plan::{HeadCounts, ScheduledMeal};
use crate::ratio::Ratio;
use crate::recipe::{RecipeIngredient, RecipeWithIngredients};
use crate::references::{find_recipe, meals_wf, recipe_index, recipes_wf};
use crate::scaling::{required_quantity, required_quantity_spec};
use crate::schedule::date_in_range;

verus! {

/// What one ingredient line of one planned meal adds to the shopping list.
/// The quantity is `None` where it cannot be represented.
#[derive(Clone, Debug, PartialEq, Eq)]
pub struct Contribution {
    pub ingredient_id: i64,
    pub unit: String,
    pub quantity: Option<Ratio>,
}

/// What line `j` of the recipe adds for a meal with the given head counts.
pub open spec fn contribution(recipe: RecipeWithIngredients, j: int, counts: HeadCounts)
    -> Contribution {
    let line = recipe.ingredients@[j].recipe_ingredient;
    Contribution {
        ingredient_id: line.ingredient_id,
        unit: line.unit,
        quantity: required_quantity_spec(
            line,
            recipe.recipe.base_servings as int,
            counts.children as int,
            counts.teens as int,
            counts.adults as int,
        ),
    }
}

/// What the lines of the recipe add for a meal with the given head counts,
/// in the order of the lines.
pub open spec fn recipe_contributions(recipe: RecipeWithIngredients, counts: HeadCounts) -> Seq<
    Contribution,
> {
    Seq::new(recipe.ingredients@.len(), |j: int| contribution(recipe, j, counts))
}

/// What a meal adds: the contributions of its recipe for the head counts
/// that count for the meal. A meal outside the date range, or whose recipe
/// is not known, adds nothing.
pub open spec fn meal_contributions(
    camp: Camp,
    meal: ScheduledMeal,
    recipes: Seq<RecipeWithIngredients>,
    start: Date,
    end: Date,
) -> Seq<Contribution> {
    if date_in_range(meal.date, start, end) {
        match recipe_index(recipes, meal.meal.planned_meal.recipe_id) {
            Some(k) => recipe_contributions(recipes[k], meal.counts(camp)),
            None => Seq::empty(),
        }
    } else {
        Seq::empty()
    }
}

/// What all the meals add, meal by meal and line by line.
pub open spec fn contributions(
    camp: Camp,
    meals: Seq<ScheduledMeal>,
    recipes: Seq<RecipeWithIngredients>,
    start: Date,
    end: Date,
) -> Seq<Contribution>
    decreases meals.len(),
{
    if meals.len() == 0 {
        Seq::empty()
    } else {
        contributions(camp, meals.drop_last(), recipes, start, end) + meal_contributions(
            camp,
            meals.last(),
            recipes,
            start,
            end,
        )
    }
}

/// Every quantity that is present is well formed and not negative.
pub open spec fn quantities_wf(lines: Seq<Contribution>) -> bool {
    forall|k: int|
        0 <= k < lines.len() && (#[trigger] lines[k]).quantity is Some ==> lines[k].quantity->0.wf()
            && lines[k].quantity->0.num >= 0
}

/// The contributions of the recipe's lines for the given head counts.
pub fn scale_recipe(recipe: &RecipeWithIngredients, counts: HeadCounts) -> (r: Vec<Contribution>)
    requires
        recipe.wf(),
        counts.wf(),
    ensures
        r@ == recipe_contributions(*recipe, counts),
        quantities_wf(r@),
{
    let mut out: Vec<Contribution> = Vec::new();
    let mut j: usize = 0;
    while j < recipe.ingredients.len()
        invariant
            j <= recipe.ingredients@.len(),
            recipe.wf(),
            counts.wf(),
            out@.len() == j,
            forall|x: int| 0 <= x < j ==> #[trigger] out@[x] == contribution(*recipe, x, counts),
            quantities_wf(out@),
        decreases recipe.ingredients@.len() - j,
    {
        let line: &RecipeIngredient = &recipe.ingredients[j].recipe_ingredient;
        let quantity: Option<Ratio> = required_quantity(
            line,
            recipe.recipe.base_servings,
            counts.children,
            counts.teens,
            counts.adults,
        );
        out.push(
            Contribution { ingredient_id: line.ingredient_id, unit: line.unit.clone(), quantity },
        );
        j += 1;
    }
    assert(out@ =~= recipe_contributions(*recipe, counts));
    out
}

/// What all the meals of the date range add, meal by meal and line by line.
pub fn collect_contributions(
    camp: &Camp,
    meals: &Vec<ScheduledMeal>,
    recipes: &Vec<RecipeWithIngredients>,
    start: Date,
    end: Date,
) -> (r: Vec<Contribution>)
    requires
        camp.wf(),
        meals_wf(meals@),
        recipes_wf(recipes@),
    ensures
        r@ == contributions(*camp, meals@, recipes@, start, end),
        quantities_wf(r@),
{
    let mut out: Vec<Contribution> = Vec::new();
    let mut i: usize = 0;
    proof {
        assert(meals@.take(0) =~= Seq::<ScheduledMeal>::empty());
    }
    while i < meals.len()
        invariant
            i <= meals@.len(),
            camp.wf(),
            meals_wf(meals@),
            recipes_wf(recipes@),
            out@ == contributions(*camp, meals@.take(i as int), recipes@, start, end),
            quantities_wf(out@),
        decreases meals@.len() - i,
    {
        let meal: &ScheduledMeal = &meals[i];
        proof {
            let t = meals@.take(i + 1);
            assert(t.drop_last() =~= meals@.take(i as int));
            assert(t.last() == *meal);
            assert(meal.wf());
        }
        if meal.date.is_within(&start, &end) {
            match find_recipe(recipes, meal.meal.planned_meal.recipe_id) {
                Some(k) => {
                    let counts: HeadCounts = meal.head_counts(camp);
                    assert(recipes@[k as int].wf());
                    let mut added: Vec<Contribution> = scale_recipe(&recipes[k], counts);
                    out.append(&mut added);
                },
                None => {
                    assert(out@ + Seq::<Contribution>::empty() =~= out@);
                },
            }
        } else {
            assert(out@ + Seq::<Contribution>::empty() =~= out@);
        }
        i += 1;
    }
    proof {
        assert(meals@.take(i as int) =~= meals@);
    }
    out
}

} // verus!
