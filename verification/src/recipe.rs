//! Recipes and their ingredient lines.

use vstd::prelude::*;
use crate::ratio::Ratio;
use crate::validation::ValidationError;

verus! {

/// A recipe; `base_servings` is the head count that the base quantities of
/// its ingredient lines are written for.
#[derive(Clone, Debug, PartialEq, Eq)]
pub struct Recipe {
    pub id: i64,
    pub name: String,
    pub instructions: Option<String>,
    pub base_servings: i32,
}

/// One ingredient line of a recipe.
#[derive(Clone, Debug, PartialEq, Eq)]
pub struct RecipeIngredient {
    pub id: i64,
    pub recipe_id: i64,
    pub ingredient_id: i64,
    pub base_quantity: Ratio,
    pub unit: String,
    pub child_multiplier: Option<Ratio>,
    pub teen_multiplier: Option<Ratio>,
    pub adult_multiplier: Option<Ratio>,
    pub notes: Option<String>,
}

/// An ingredient line together with the name of its ingredient.
#[derive(Clone, Debug, PartialEq, Eq)]
pub struct RecipeIngredientDetail {
    pub recipe_ingredient: RecipeIngredient,
    pub ingredient_name: String,
}

/// A recipe together with its ingredient lines.
#[derive(Clone, Debug, PartialEq, Eq)]
pub struct RecipeWithIngredients {
    pub recipe: Recipe,
    pub ingredients: Vec<RecipeIngredientDetail>,
}

/// The data of an ingredient line that is to be created.
#[derive(Clone, Debug, PartialEq, Eq)]
pub struct CreateRecipeIngredient {
    pub ingredient_id: i64,
    pub base_quantity: Ratio,
    pub unit: String,
    pub child_multiplier: Option<Ratio>,
    pub teen_multiplier: Option<Ratio>,
    pub adult_multiplier: Option<Ratio>,
    pub notes: Option<String>,
}

/// The data of a recipe that is to be created.
#[derive(Clone, Debug, PartialEq, Eq)]
pub struct CreateRecipe {
    pub name: String,
    pub instructions: Option<String>,
    pub base_servings: i32,
    pub ingredients: Vec<CreateRecipeIngredient>,
}

/// Changes to a recipe; a field that is `None` leaves the recipe's value,
/// and a list of ingredient lines replaces all the existing ones.
#[derive(Clone, Debug, PartialEq, Eq)]
pub struct UpdateRecipe {
    pub name: Option<String>,
    pub instructions: Option<String>,
    pub base_servings: Option<i32>,
    pub ingredients: Option<Vec<CreateRecipeIngredient>>,
}

/// The multiplier for children where a line gives none: one half.
pub open spec fn default_child_multiplier() -> Ratio {
    Ratio { num: 1, den: 2 }
}

/// The multiplier for teens where a line gives none: three quarters.
pub open spec fn default_teen_multiplier() -> Ratio {
    Ratio { num: 3, den: 4 }
}

/// The multiplier for adults where a line gives none: one.
pub open spec fn default_adult_multiplier() -> Ratio {
    Ratio { num: 1, den: 1 }
}

/// A multiplier, where present, is well formed and not negative.
pub open spec fn multiplier_wf(m: Option<Ratio>) -> bool {
    m is Some ==> m->0.wf() && m->0.num >= 0
}

/// The complaint about a multiplier, if any.
pub open spec fn multiplier_error(m: Option<Ratio>) -> Option<ValidationError> {
    if m is Some && m->0.num < 0 {
        Some(ValidationError::NegativeMultiplier)
    } else {
        None
    }
}

impl RecipeIngredient {
    /// The line's invariant: a positive base quantity and no negative
    /// multiplier.
    pub open spec fn wf(self) -> bool {
        &&& self.base_quantity.wf()
        &&& self.base_quantity.num > 0
        &&& multiplier_wf(self.child_multiplier)
        &&& multiplier_wf(self.teen_multiplier)
        &&& multiplier_wf(self.adult_multiplier)
    }

    /// The multiplier that applies to children.
    pub open spec fn effective_child(self) -> Ratio {
        match self.child_multiplier {
            Some(m) => m,
            None => default_child_multiplier(),
        }
    }

    /// The multiplier that applies to teens.
    pub open spec fn effective_teen(self) -> Ratio {
        match self.teen_multiplier {
            Some(m) => m,
            None => default_teen_multiplier(),
        }
    }

    /// The multiplier that applies to adults.
    pub open spec fn effective_adult(self) -> Ratio {
        match self.adult_multiplier {
            Some(m) => m,
            None => default_adult_multiplier(),
        }
    }

    /// Whether the line is well formed.
    pub fn is_wf(&self) -> (b: bool)
        ensures
            b == self.wf(),
    {
        self.base_quantity.is_wf() && self.base_quantity.num > 0 && is_multiplier_wf(
            &self.child_multiplier,
        ) && is_multiplier_wf(&self.teen_multiplier) && is_multiplier_wf(&self.adult_multiplier)
    }

    /// The multiplier that applies to children: the line's own, or one half.
    pub fn child_factor(&self) -> (m: Ratio)
        ensures
            m == self.effective_child(),
    {
        match self.child_multiplier {
            Some(m) => m,
            None => Ratio { num: 1, den: 2 },
        }
    }

    /// The multiplier that applies to teens: the line's own, or three
    /// quarters.
    pub fn teen_factor(&self) -> (m: Ratio)
        ensures
            m == self.effective_teen(),
    {
        match self.teen_multiplier {
            Some(m) => m,
            None => Ratio { num: 3, den: 4 },
        }
    }

    /// The multiplier that applies to adults: the line's own, or one.
    pub fn adult_factor(&self) -> (m: Ratio)
        ensures
            m == self.effective_adult(),
    {
        match self.adult_multiplier {
            Some(m) => m,
            None => Ratio { num: 1, den: 1 },
        }
    }
}

impl RecipeWithIngredients {
    /// The recipe's invariant: positive base servings and well-formed lines.
    pub open spec fn wf(self) -> bool {
        &&& self.recipe.base_servings > 0
        &&& forall|i: int|
            0 <= i < self.ingredients@.len() ==> (
            #[trigger] self.ingredients@[i]).recipe_ingredient.wf()
    }

    /// Whether the recipe is well formed.
    pub fn is_wf(&self) -> (b: bool)
        ensures
            b == self.wf(),
    {
        if self.recipe.base_servings <= 0 {
            return false;
        }
        let mut i: usize = 0;
        while i < self.ingredients.len()
            invariant
                i <= self.ingredients@.len(),
                forall|j: int|
                    0 <= j < i ==> (#[trigger] self.ingredients@[j]).recipe_ingredient.wf(),
            decreases self.ingredients@.len() - i,
        {
            if !self.ingredients[i].recipe_ingredient.is_wf() {
                return false;
            }
            i += 1;
        }
        true
    }
}

/// Whether a multiplier, where present, is well formed and not negative.
pub fn is_multiplier_wf(m: &Option<Ratio>) -> (b: bool)
    ensures
        b == multiplier_wf(*m),
{
    match m {
        Some(r) => r.is_wf() && r.num >= 0,
        None => true,
    }
}

impl CreateRecipeIngredient {
    /// The terms of the quantity and of the multipliers are in range.
    pub open spec fn in_range(self) -> bool {
        &&& self.base_quantity.wf()
        &&& self.child_multiplier is Some ==> self.child_multiplier->0.wf()
        &&& self.teen_multiplier is Some ==> self.teen_multiplier->0.wf()
        &&& self.adult_multiplier is Some ==> self.adult_multiplier->0.wf()
    }

    /// The first complaint about the line: its quantity, then the
    /// multipliers for children, teens and adults.
    pub open spec fn error(self) -> Option<ValidationError> {
        if self.base_quantity.num <= 0 {
            Some(ValidationError::NonPositiveQuantity)
        } else if multiplier_error(self.child_multiplier) is Some {
            Some(ValidationError::NegativeMultiplier)
        } else if multiplier_error(self.teen_multiplier) is Some {
            Some(ValidationError::NegativeMultiplier)
        } else if multiplier_error(self.adult_multiplier) is Some {
            Some(ValidationError::NegativeMultiplier)
        } else {
            None
        }
    }

    /// The line as it is stored: a multiplier that is not given becomes the
    /// default of its age band.
    pub open spec fn stored(self, id: i64, recipe_id: i64) -> RecipeIngredient {
        RecipeIngredient {
            id,
            recipe_id,
            ingredient_id: self.ingredient_id,
            base_quantity: self.base_quantity,
            unit: self.unit,
            child_multiplier: Some(
                match self.child_multiplier {
                    Some(m) => m,
                    None => default_child_multiplier(),
                },
            ),
            teen_multiplier: Some(
                match self.teen_multiplier {
                    Some(m) => m,
                    None => default_teen_multiplier(),
                },
            ),
            adult_multiplier: Some(
                match self.adult_multiplier {
                    Some(m) => m,
                    None => default_adult_multiplier(),
                },
            ),
            notes: self.notes,
        }
    }

    /// Checks the quantity, then the three multipliers.
    pub fn validate(&self) -> (r: Result<(), ValidationError>)
        ensures
            r == (match self.error() {
                Some(e) => Err::<(), ValidationError>(e),
                None => Ok(()),
            }),
    {
        if self.base_quantity.num <= 0 {
            return Err(ValidationError::NonPositiveQuantity);
        }
        if is_negative_multiplier(&self.child_multiplier) {
            return Err(ValidationError::NegativeMultiplier);
        }
        if is_negative_multiplier(&self.teen_multiplier) {
            return Err(ValidationError::NegativeMultiplier);
        }
        if is_negative_multiplier(&self.adult_multiplier) {
            return Err(ValidationError::NegativeMultiplier);
        }
        Ok(())
    }

    /// The line to store under `id` for the recipe `recipe_id`, with the
    /// defaults filled in.
    pub fn into_stored(self, id: i64, recipe_id: i64) -> (r: RecipeIngredient)
        ensures
            r == self.stored(id, recipe_id),
            (self.in_range() && self.error() is None) ==> r.wf(),
    {
        RecipeIngredient {
            id,
            recipe_id,
            ingredient_id: self.ingredient_id,
            base_quantity: self.base_quantity,
            unit: self.unit,
            child_multiplier: Some(
                match self.child_multiplier {
                    Some(m) => m,
                    None => Ratio { num: 1, den: 2 },
                },
            ),
            teen_multiplier: Some(
                match self.teen_multiplier {
                    Some(m) => m,
                    None => Ratio { num: 3, den: 4 },
                },
            ),
            adult_multiplier: Some(
                match self.adult_multiplier {
                    Some(m) => m,
                    None => Ratio { num: 1, den: 1 },
                },
            ),
            notes: self.notes,
        }
    }
}

/// Whether a multiplier is given and negative.
pub fn is_negative_multiplier(m: &Option<Ratio>) -> (b: bool)
    ensures
        b == (multiplier_error(*m) is Some),
{
    match m {
        Some(r) => r.num < 0,
        None => false,
    }
}

/// The complaint about the first line that has one, if any.
pub open spec fn first_line_error(lines: Seq<CreateRecipeIngredient>) -> Option<ValidationError>
    decreases lines.len(),
{
    if lines.len() == 0 {
        None
    } else if lines[0].error() is Some {
        lines[0].error()
    } else {
        first_line_error(lines.drop_first())
    }
}

/// The first complaint about a recipe: its base servings, then its lines in
/// order.
pub open spec fn recipe_error(base_servings: i32, lines: Seq<CreateRecipeIngredient>) -> Option<
    ValidationError,
> {
    if base_servings <= 0 {
        Some(ValidationError::NonPositiveServings)
    } else {
        first_line_error(lines)
    }
}

/// No line has a complaint exactly when the first complaint is `None`.
pub proof fn lemma_first_line_error_none(lines: Seq<CreateRecipeIngredient>)
    ensures
        first_line_error(lines) is None <==> forall|i: int|
            0 <= i < lines.len() ==> (#[trigger] lines[i]).error() is None,
    decreases lines.len(),
{
    if lines.len() > 0 {
        let rest = lines.drop_first();
        lemma_first_line_error_none(rest);
        if first_line_error(lines) is None {
            assert forall|i: int| 0 <= i < lines.len() implies (#[trigger] lines[i]).error() is None by {
                if i > 0 {
                    assert(rest[i - 1] == lines[i]);
                }
            }
        } else if lines[0].error() is None {
            let j = choose|j: int| 0 <= j < rest.len() && !((#[trigger] rest[j]).error() is None);
            assert(rest[j] == lines[j + 1]);
        }
    }
}

/// Checks the lines in order and reports the first complaint.
pub fn validate_lines(lines: &Vec<CreateRecipeIngredient>) -> (r: Result<(), ValidationError>)
    ensures
        r == (match first_line_error(lines@) {
            Some(e) => Err::<(), ValidationError>(e),
            None => Ok(()),
        }),
{
    let mut i: usize = 0;
    assert(lines@.skip(0) =~= lines@);
    while i < lines.len()
        invariant
            i <= lines@.len(),
            first_line_error(lines@) == first_line_error(lines@.skip(i as int)),
        decreases lines@.len() - i,
    {
        proof {
            let rest = lines@.skip(i as int);
            assert(rest[0] == lines@[i as int]);
            assert(rest.drop_first() =~= lines@.skip(i + 1));
        }
        match lines[i].validate() {
            Err(e) => {
                return Err(e);
            },
            Ok(()) => {},
        }
        i += 1;
    }
    Ok(())
}

impl CreateRecipe {
    /// The first complaint about the new recipe, if any.
    pub open spec fn error(self) -> Option<ValidationError> {
        recipe_error(self.base_servings, self.ingredients@)
    }

    /// Checks the base servings, then the ingredient lines in order.
    pub fn validate(&self) -> (r: Result<(), ValidationError>)
        ensures
            r == (match self.error() {
                Some(e) => Err::<(), ValidationError>(e),
                None => Ok(()),
            }),
    {
        if self.base_servings <= 0 {
            return Err(ValidationError::NonPositiveServings);
        }
        validate_lines(&self.ingredients)
    }
}

impl UpdateRecipe {
    /// The base servings after the changes.
    pub open spec fn merged_servings(self, existing: Recipe) -> i32 {
        match self.base_servings {
            Some(n) => n,
            None => existing.base_servings,
        }
    }

    /// The recipe after the changes: each field that is given replaces the
    /// existing one.
    pub open spec fn merged(self, existing: Recipe) -> Recipe {
        Recipe {
            id: existing.id,
            name: match self.name {
                Some(n) => n,
                None => existing.name,
            },
            instructions: match self.instructions {
                Some(t) => Some(t),
                None => existing.instructions,
            },
            base_servings: self.merged_servings(existing),
        }
    }

    /// The first complaint about the recipe after the changes: its base
    /// servings, then the replacement lines where there are any.
    pub open spec fn error(self, existing: Recipe) -> Option<ValidationError> {
        recipe_error(
            self.merged_servings(existing),
            match self.ingredients {
                Some(lines) => lines@,
                None => Seq::empty(),
            },
        )
    }

    /// Applies the changes to `existing` and validates the outcome. With the
    /// recipe comes the list of lines that replaces all the existing ones,
    /// if the changes hold one.
    pub fn apply(self, existing: Recipe) -> (r: Result<
        (Recipe, Option<Vec<CreateRecipeIngredient>>),
        ValidationError,
    >)
        ensures
            r == (match self.error(existing) {
                Some(e) => Err::<(Recipe, Option<Vec<CreateRecipeIngredient>>), ValidationError>(e),
                None => Ok((self.merged(existing), self.ingredients)),
            }),
    {
        let base_servings: i32 = match self.base_servings {
            Some(n) => n,
            None => existing.base_servings,
        };
        if base_servings <= 0 {
            return Err(ValidationError::NonPositiveServings);
        }
        match &self.ingredients {
            Some(lines) => {
                match validate_lines(lines) {
                    Err(e) => {
                        return Err(e);
                    },
                    Ok(()) => {},
                }
            },
            None => {},
        }
        let recipe = Recipe {
            id: existing.id,
            name: match self.name {
                Some(n) => n,
                None => existing.name,
            },
            instructions: match self.instructions {
                Some(t) => Some(t),
                None => existing.instructions,
            },
            base_servings,
        };
        Ok((recipe, self.ingredients))
    }
}

} // verus!
