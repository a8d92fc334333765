//! Categories and ingredients.

use vstd::prelude::*;

verus! {

/// A category of ingredients; `sort_order` places it in listings.
#[derive(Clone, Debug, PartialEq, Eq)]
pub struct Category {
    pub id: i64,
    pub name: String,
    pub sort_order: i32,
}

/// The data of a category that is to be created.
#[derive(Clone, Debug, PartialEq, Eq)]
pub struct CreateCategory {
    pub name: String,
    pub sort_order: i32,
}

/// Changes to a category; a field that is `None` leaves the category's
/// value.
#[derive(Clone, Debug, PartialEq, Eq)]
pub struct UpdateCategory {
    pub name: Option<String>,
    pub sort_order: Option<i32>,
}

/// An ingredient. It belongs to one category; its units are informational.
#[derive(Clone, Debug, PartialEq, Eq)]
pub struct Ingredient {
    pub id: i64,
    pub name: String,
    pub category_id: i64,
    pub primary_unit: String,
    pub secondary_unit: Option<String>,
}

/// The data of an ingredient that is to be created.
#[derive(Clone, Debug, PartialEq, Eq)]
pub struct CreateIngredient {
    pub name: String,
    pub category_id: i64,
    pub primary_unit: String,
    pub secondary_unit: Option<String>,
}

/// Changes to an ingredient; a field that is `None` leaves the ingredient's
/// value.
#[derive(Clone, Debug, PartialEq, Eq)]
pub struct UpdateIngredient {
    pub name: Option<String>,
    pub category_id: Option<i64>,
    pub primary_unit: Option<String>,
    pub secondary_unit: Option<String>,
}

impl CreateCategory {
    /// The category that is stored under `id` for this data.
    pub open spec fn stored(self, id: i64) -> Category {
        Category { id, name: self.name, sort_order: self.sort_order }
    }

    /// The category to store under `id`.
    pub fn into_category(self, id: i64) -> (r: Category)
        ensures
            r == self.stored(id),
    {
        Category { id, name: self.name, sort_order: self.sort_order }
    }
}

impl UpdateCategory {
    /// The category after the changes.
    pub open spec fn merged(self, existing: Category) -> Category {
        Category {
            id: existing.id,
            name: match self.name {
                Some(n) => n,
                None => existing.name,
            },
            sort_order: match self.sort_order {
                Some(n) => n,
                None => existing.sort_order,
            },
        }
    }

    /// Applies the changes to `existing`.
    pub fn apply(self, existing: Category) -> (r: Category)
        ensures
            r == self.merged(existing),
    {
        Category {
            id: existing.id,
            name: match self.name {
                Some(n) => n,
                None => existing.name,
            },
            sort_order: match self.sort_order {
                Some(n) => n,
                None => existing.sort_order,
            },
        }
    }
}

impl CreateIngredient {
    /// The ingredient that is stored under `id` for this data.
    pub open spec fn stored(self, id: i64) -> Ingredient {
        Ingredient {
            id,
            name: self.name,
            category_id: self.category_id,
            primary_unit: self.primary_unit,
            secondary_unit: self.secondary_unit,
        }
    }

    /// The ingredient to store under `id`.
    pub fn into_ingredient(self, id: i64) -> (r: Ingredient)
        ensures
            r == self.stored(id),
    {
        Ingredient {
            id,
            name: self.name,
            category_id: self.category_id,
            primary_unit: self.primary_unit,
            secondary_unit: self.secondary_unit,
        }
    }
}

impl UpdateIngredient {
    /// The ingredient after the changes.
    pub open spec fn merged(self, existing: Ingredient) -> Ingredient {
        Ingredient {
            id: existing.id,
            name: match self.name {
                Some(n) => n,
                None => existing.name,
            },
            category_id: match self.category_id {
                Some(n) => n,
                None => existing.category_id,
            },
            primary_unit: match self.primary_unit {
                Some(u) => u,
                None => existing.primary_unit,
            },
            secondary_unit: match self.secondary_unit {
                Some(u) => Some(u),
                None => existing.secondary_unit,
            },
        }
    }

    /// Applies the changes to `existing`.
    pub fn apply(self, existing: Ingredient) -> (r: Ingredient)
        ensures
            r == self.merged(existing),
    {
        Ingredient {
            id: existing.id,
            name: match self.name {
                Some(n) => n,
                None => existing.name,
            },
            category_id: match self.category_id {
                Some(n) => n,
                None => existing.category_id,
            },
            primary_unit: match self.primary_unit {
                Some(u) => u,
                None => existing.primary_unit,
            },
            secondary_unit: match self.secondary_unit {
                Some(u) => Some(u),
                None => existing.secondary_unit,
            },
        }
    }
}

/// The index of the first category with the given id.
pub open spec fn category_index(categories: Seq<Category>, id: i64) -> Option<int>
    decreases categories.len(),
{
    if categories.len() == 0 {
        None
    } else if categories[0].id == id {
        Some(0int)
    } else {
        match category_index(categories.drop_first(), id) {
            Some(i) => Some(i + 1),
            None => None,
        }
    }
}

/// The index of the first ingredient with the given id.
pub open spec fn ingredient_index(ingredients: Seq<Ingredient>, id: i64) -> Option<int>
    decreases ingredients.len(),
{
    if ingredients.len() == 0 {
        None
    } else if ingredients[0].id == id {
        Some(0int)
    } else {
        match ingredient_index(ingredients.drop_first(), id) {
            Some(i) => Some(i + 1),
            None => None,
        }
    }
}

/// `category_index` finds the first category with the id, and none only
/// where no category has it.
pub proof fn lemma_category_index(categories: Seq<Category>, id: i64)
    ensures
        match category_index(categories, id) {
            Some(i) => 0 <= i < categories.len() && categories[i].id == id && forall|j: int|
                0 <= j < i ==> (#[trigger] categories[j]).id != id,
            None => forall|j: int| 0 <= j < categories.len() ==> (#[trigger] categories[j]).id != id,
        },
    decreases categories.len(),
{
    if categories.len() > 0 && categories[0].id != id {
        let rest = categories.drop_first();
        lemma_category_index(rest, id);
        match category_index(rest, id) {
            Some(i) => {
                assert(rest[i] == categories[i + 1]);
                assert forall|j: int| 0 <= j < i + 1 implies (#[trigger] categories[j]).id != id by {
                    if j > 0 {
                        assert(rest[j - 1] == categories[j]);
                    }
                }
            },
            None => {
                assert forall|j: int| 0 <= j < categories.len() implies (
                #[trigger] categories[j]).id != id by {
                    if j > 0 {
                        assert(rest[j - 1] == categories[j]);
                    }
                }
            },
        }
    }
}

/// `ingredient_index` finds the first ingredient with the id, and none only
/// where no ingredient has it.
pub proof fn lemma_ingredient_index(ingredients: Seq<Ingredient>, id: i64)
    ensures
        match ingredient_index(ingredients, id) {
            Some(i) => 0 <= i < ingredients.len() && ingredients[i].id == id && forall|j: int|
                0 <= j < i ==> (#[trigger] ingredients[j]).id != id,
            None => forall|j: int|
                0 <= j < ingredients.len() ==> (#[trigger] ingredients[j]).id != id,
        },
    decreases ingredients.len(),
{
    if ingredients.len() > 0 && ingredients[0].id != id {
        let rest = ingredients.drop_first();
        lemma_ingredient_index(rest, id);
        match ingredient_index(rest, id) {
            Some(i) => {
                assert(rest[i] == ingredients[i + 1]);
                assert forall|j: int| 0 <= j < i + 1 implies (#[trigger] ingredients[j]).id
                    != id by {
                    if j > 0 {
                        assert(rest[j - 1] == ingredients[j]);
                    }
                }
            },
            None => {
                assert forall|j: int| 0 <= j < ingredients.len() implies (
                #[trigger] ingredients[j]).id != id by {
                    if j > 0 {
                        assert(rest[j - 1] == ingredients[j]);
                    }
                }
            },
        }
    }
}

/// The position of the first category with the given id.
pub fn find_category(categories: &Vec<Category>, id: i64) -> (r: Option<usize>)
    ensures
        match r {
            Some(i) => category_index(categories@, id) == Some(i as int),
            None => category_index(categories@, id) is None,
        },
        r is Some ==> r->0 < categories@.len() && categories@[r->0 as int].id == id,
{
    let mut i: usize = 0;
    while i < categories.len()
        invariant
            i <= categories@.len(),
            forall|j: int| 0 <= j < i ==> (#[trigger] categories@[j]).id != id,
        decreases categories@.len() - i,
    {
        if categories[i].id == id {
            proof {
                lemma_category_index(categories@, id);
            }
            return Some(i);
        }
        i += 1;
    }
    proof {
        lemma_category_index(categories@, id);
    }
    None
}

/// The position of the first ingredient with the given id.
pub fn find_ingredient(ingredients: &Vec<Ingredient>, id: i64) -> (r: Option<usize>)
    ensures
        match r {
            Some(i) => ingredient_index(ingredients@, id) == Some(i as int),
            None => ingredient_index(ingredients@, id) is None,
        },
        r is Some ==> r->0 < ingredients@.len() && ingredients@[r->0 as int].id == id,
{
    let mut i: usize = 0;
    while i < ingredients.len()
        invariant
            i <= ingredients@.len(),
            forall|j: int| 0 <= j < i ==> (#[trigger] ingredients@[j]).id != id,
        decreases ingredients@.len() - i,
    {
        if ingredients[i].id == id {
            proof {
                lemma_ingredient_index(ingredients@, id);
            }
            return Some(i);
        }
        i += 1;
    }
    proof {
        lemma_ingredient_index(ingredients@, id);
    }
    None
}

/// How many of the ingredients belong to the category.
pub open spec fn count_in_category(ingredients: Seq<Ingredient>, category_id: i64) -> nat
    decreases ingredients.len(),
{
    if ingredients.len() == 0 {
        0
    } else {
        count_in_category(ingredients.drop_last(), category_id) + (if ingredients.last().category_id
            == category_id {
            1nat
        } else {
            0nat
        })
    }
}

/// Whether the category may be deleted: `Ok` where no ingredient belongs to
/// it, else the number of ingredients that still do.
pub fn check_category_unused(ingredients: &Vec<Ingredient>, category_id: i64) -> (r: Result<
    (),
    usize,
>)
    ensures
        match r {
            Ok(()) => count_in_category(ingredients@, category_id) == 0,
            Err(n) => n > 0 && n == count_in_category(ingredients@, category_id),
        },
{
    let mut count: usize = 0;
    let mut i: usize = 0;
    proof {
        assert(ingredients@.take(0) =~= Seq::<Ingredient>::empty());
    }
    while i < ingredients.len()
        invariant
            i <= ingredients@.len(),
            count == count_in_category(ingredients@.take(i as int), category_id),
            count <= i,
        decreases ingredients@.len() - i,
    {
        proof {
            let t = ingredients@.take(i + 1);
            assert(t.drop_last() =~= ingredients@.take(i as int));
            assert(t.last() == ingredients@[i as int]);
        }
        if ingredients[i].category_id == category_id {
            count += 1;
        }
        i += 1;
    }
    proof {
        assert(ingredients@.take(i as int) =~= ingredients@);
    }
    if count > 0 {
        Err(count)
    } else {
        Ok(())
    }
}

} // verus!
