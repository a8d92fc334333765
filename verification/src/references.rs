//! The references of planned meals: whether their recipes, and the
//! ingredients and categories of their lines, are known.

use vstd::prelude::*;
use crate::camp::Camp;
use crate::catalog::{
    category_index, find_category, find_ingredient, ingredient_index, Category, Ingredient,
};
use crate::date::Date;
use crate::meal_plan::ScheduledMeal;
use crate::recipe::{RecipeIngredient, RecipeWithIngredients};
use crate::schedule::date_in_range;

verus! {

/// The index of the first recipe with the given id.
pub open spec fn recipe_index(recipes: Seq<RecipeWithIngredients>, id: i64) -> Option<int>
    decreases recipes.len(),
{
    if recipes.len() == 0 {
        None
    } else if recipes[0].recipe.id == id {
        Some(0int)
    } else {
        match recipe_index(recipes.drop_first(), id) {
            Some(i) => Some(i + 1),
            None => None,
        }
    }
}

/// `recipe_index` finds the first recipe with the id, and none only where no
/// recipe has it.
pub proof fn lemma_recipe_index(recipes: Seq<RecipeWithIngredients>, id: i64)
    ensures
        match recipe_index(recipes, id) {
            Some(i) => 0 <= i < recipes.len() && recipes[i].recipe.id == id && forall|j: int|
                0 <= j < i ==> (#[trigger] recipes[j]).recipe.id != id,
            None => forall|j: int| 0 <= j < recipes.len() ==> (#[trigger] recipes[j]).recipe.id != id,
        },
    decreases recipes.len(),
{
    if recipes.len() > 0 && recipes[0].recipe.id != id {
        let rest = recipes.drop_first();
        lemma_recipe_index(rest, id);
        match recipe_index(rest, id) {
            Some(i) => {
                assert(rest[i] == recipes[i + 1]);
                assert forall|j: int| 0 <= j < i + 1 implies (#[trigger] recipes[j]).recipe.id
                    != id by {
                    if j > 0 {
                        assert(rest[j - 1] == recipes[j]);
                    }
                }
            },
            None => {
                assert forall|j: int| 0 <= j < recipes.len() implies (
                #[trigger] recipes[j]).recipe.id != id by {
                    if j > 0 {
                        assert(rest[j - 1] == recipes[j]);
                    }
                }
            },
        }
    }
}

/// The position of the first recipe with the given id.
pub fn find_recipe(recipes: &Vec<RecipeWithIngredients>, id: i64) -> (r: Option<usize>)
    ensures
        match r {
            Some(i) => recipe_index(recipes@, id) == Some(i as int),
            None => recipe_index(recipes@, id) is None,
        },
        r is Some ==> r->0 < recipes@.len() && recipes@[r->0 as int].recipe.id == id,
{
    let mut i: usize = 0;
    while i < recipes.len()
        invariant
            i <= recipes@.len(),
            forall|j: int| 0 <= j < i ==> (#[trigger] recipes@[j]).recipe.id != id,
        decreases recipes@.len() - i,
    {
        if recipes[i].recipe.id == id {
            proof {
                lemma_recipe_index(recipes@, id);
            }
            return Some(i);
        }
        i += 1;
    }
    proof {
        lemma_recipe_index(recipes@, id);
    }
    None
}

/// Every recipe has positive base servings and well-formed lines.
pub open spec fn recipes_wf(recipes: Seq<RecipeWithIngredients>) -> bool {
    forall|i: int| 0 <= i < recipes.len() ==> (#[trigger] recipes[i]).wf()
}

/// Every attendance record is well formed.
pub open spec fn meals_wf(meals: Seq<ScheduledMeal>) -> bool {
    forall|i: int| 0 <= i < meals.len() ==> (#[trigger] meals[i]).wf()
}

/// Whether the camp, the attendance records and the recipes are well
/// formed, as the reports ask of them.
pub fn check_inputs(
    camp: &Camp,
    meals: &Vec<ScheduledMeal>,
    recipes: &Vec<RecipeWithIngredients>,
) -> (b: bool)
    ensures
        b == (camp.wf() && meals_wf(meals@) && recipes_wf(recipes@)),
{
    if !camp.is_wf() {
        return false;
    }
    let mut i: usize = 0;
    while i < meals.len()
        invariant
            i <= meals@.len(),
            forall|j: int| 0 <= j < i ==> (#[trigger] meals@[j]).wf(),
        decreases meals@.len() - i,
    {
        if !meals[i].is_wf() {
            return false;
        }
        i += 1;
    }
    let mut k: usize = 0;
    while k < recipes.len()
        invariant
            k <= recipes@.len(),
            meals_wf(meals@),
            forall|j: int| 0 <= j < k ==> (#[trigger] recipes@[j]).wf(),
        decreases recipes@.len() - k,
    {
        if !recipes[k].is_wf() {
            return false;
        }
        k += 1;
    }
    true
}

/// The ingredient of the line is among the ingredients, and its category
/// among the categories.
pub open spec fn line_resolves(
    line: RecipeIngredient,
    ingredients: Seq<Ingredient>,
    categories: Seq<Category>,
) -> bool {
    match ingredient_index(ingredients, line.ingredient_id) {
        Some(p) => category_index(categories, ingredients[p].category_id) is Some,
        None => false,
    }
}

/// The recipe of the meal is among the recipes, and each of its lines
/// resolves.
pub open spec fn meal_resolves(
    meal: ScheduledMeal,
    recipes: Seq<RecipeWithIngredients>,
    ingredients: Seq<Ingredient>,
    categories: Seq<Category>,
) -> bool {
    match recipe_index(recipes, meal.meal.planned_meal.recipe_id) {
        Some(k) => forall|j: int|
            0 <= j < recipes[k].ingredients@.len() ==> line_resolves(
                (#[trigger] recipes[k].ingredients@[j]).recipe_ingredient,
                ingredients,
                categories,
            ),
        None => false,
    }
}

/// Every meal of the date range resolves.
pub open spec fn references_resolve(
    meals: Seq<ScheduledMeal>,
    recipes: Seq<RecipeWithIngredients>,
    ingredients: Seq<Ingredient>,
    categories: Seq<Category>,
    start: Date,
    end: Date,
) -> bool {
    forall|i: int|
        0 <= i < meals.len() && date_in_range((#[trigger] meals[i]).date, start, end)
            ==> meal_resolves(meals[i], recipes, ingredients, categories)
}

/// Whether the ingredient of the line and its category are known.
pub fn check_line(
    line: &RecipeIngredient,
    ingredients: &Vec<Ingredient>,
    categories: &Vec<Category>,
) -> (b: bool)
    ensures
        b == line_resolves(*line, ingredients@, categories@),
{
    match find_ingredient(ingredients, line.ingredient_id) {
        Some(p) => find_category(categories, ingredients[p].category_id).is_some(),
        None => false,
    }
}

/// Whether the recipe of the meal, the ingredients of its lines and their
/// categories are known.
pub fn check_meal(
    meal: &ScheduledMeal,
    recipes: &Vec<RecipeWithIngredients>,
    ingredients: &Vec<Ingredient>,
    categories: &Vec<Category>,
) -> (b: bool)
    ensures
        b == meal_resolves(*meal, recipes@, ingredients@, categories@),
{
    match find_recipe(recipes, meal.meal.planned_meal.recipe_id) {
        None => false,
        Some(k) => {
            let recipe: &RecipeWithIngredients = &recipes[k];
            let mut j: usize = 0;
            while j < recipe.ingredients.len()
                invariant
                    j <= recipe.ingredients@.len(),
                    k < recipes@.len(),
                    *recipe == recipes@[k as int],
                    recipe_index(recipes@, meal.meal.planned_meal.recipe_id) == Some(k as int),
                    forall|x: int|
                        0 <= x < j ==> line_resolves(
                            (#[trigger] recipe.ingredients@[x]).recipe_ingredient,
                            ingredients@,
                            categories@,
                        ),
                decreases recipe.ingredients@.len() - j,
            {
                if !check_line(&recipe.ingredients[j].recipe_ingredient, ingredients, categories) {
                    return false;
                }
                j += 1;
            }
            true
        },
    }
}

/// Whether every meal of the date range names a known recipe whose lines
/// name known ingredients of known categories.
pub fn check_references(
    meals: &Vec<ScheduledMeal>,
    recipes: &Vec<RecipeWithIngredients>,
    ingredients: &Vec<Ingredient>,
    categories: &Vec<Category>,
    start: Date,
    end: Date,
) -> (b: bool)
    ensures
        b == references_resolve(meals@, recipes@, ingredients@, categories@, start, end),
{
    let mut i: usize = 0;
    while i < meals.len()
        invariant
            i <= meals@.len(),
            forall|x: int|
                0 <= x < i && date_in_range((#[trigger] meals@[x]).date, start, end)
                    ==> meal_resolves(meals@[x], recipes@, ingredients@, categories@),
        decreases meals@.len() - i,
    {
        if meals[i].date.is_within(&start, &end) {
            if !check_meal(&meals[i], recipes, ingredients, categories) {
                return false;
            }
        }
        i += 1;
    }
    true
}

} // verus!
