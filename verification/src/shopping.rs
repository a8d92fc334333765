//! Shopping lists: the ingredient quantities that the planned meals of a
//! date range need, summed by ingredient and unit.

use vstd::prelude::*;
use crate::camp::Camp;
use crate::catalog::{
    category_index, find_category, find_ingredient, ingredient_index, Category, Ingredient,
};
use crate::contributions::{collect_contributions, contributions, meal_contributions, Contribution};
use crate::date::Date;
use crate::meal_plan::ScheduledMeal;
use crate::ratio::Ratio;
use crate::recipe::RecipeWithIngredients;
use crate::references::{
    check_references, line_resolves, meal_resolves, meals_wf, recipe_index, recipes_wf,
    references_resolve,
};
use crate::schedule::date_in_range;
use crate::sorting::{is_sorted, sort_by_key, Keyed};
use crate::text::{lemma_text_lt_irreflexive, lemma_text_lt_transitive, str_equal, str_lt, text_lt};
use crate::totals::{
    accumulate, group_for, group_ok, groups_of, has_group, key_occurs, same_key, total_of,
    totals_fit, Group,
};

verus! {

/// Why a report could not be produced.
#[derive(Clone, Copy, Debug, PartialEq, Eq, Structural)]
pub enum ReportError {
    /// A planned meal names a recipe, a recipe an ingredient, or an
    /// ingredient a category that is not among those given.
    NotFound,
    /// A quantity or a total cannot be represented.
    Overflow,
}

/// One line of a shopping list: the total of one ingredient in one unit.
#[derive(Clone, Debug, PartialEq, Eq)]
pub struct ShoppingListItem {
    pub ingredient_id: i64,
    pub ingredient_name: String,
    pub category_name: String,
    pub total_quantity: Ratio,
    pub unit: String,
}

/// A line of a shopping list with the sort order of its category.
#[derive(Clone, Debug, PartialEq, Eq)]
pub struct ShoppingEntry {
    pub item: ShoppingListItem,
    pub sort_order: i32,
}

/// The place of an item in a shopping list is given by the sort order of its
/// category, then the name of its ingredient, then the ingredient's id, then
/// the unit: `(s1, n1, i1, u1)` comes strictly before `(s2, n2, i2, u2)`.
pub open spec fn place_before(
    s1: int,
    n1: Seq<char>,
    i1: i64,
    u1: Seq<char>,
    s2: int,
    n2: Seq<char>,
    i2: i64,
    u2: Seq<char>,
) -> bool {
    s1 < s2 || (s1 == s2 && (text_lt(n1, n2) || (n1 == n2 && (i1 < i2 || (i1 == i2 && text_lt(
        u1,
        u2,
    ))))))
}

impl Keyed for ShoppingEntry {
    open spec fn precedes(&self, other: &Self) -> bool {
        place_before(
            self.sort_order as int,
            self.item.ingredient_name@,
            self.item.ingredient_id,
            self.item.unit@,
            other.sort_order as int,
            other.item.ingredient_name@,
            other.item.ingredient_id,
            other.item.unit@,
        )
    }

    fn comes_before(&self, other: &Self) -> (b: bool) {
        if self.sort_order != other.sort_order {
            return self.sort_order < other.sort_order;
        }
        if !str_equal(self.item.ingredient_name.as_str(), other.item.ingredient_name.as_str()) {
            return str_lt(self.item.ingredient_name.as_str(), other.item.ingredient_name.as_str());
        }
        proof {
            lemma_text_lt_irreflexive(self.item.ingredient_name@);
        }
        if self.item.ingredient_id != other.item.ingredient_id {
            return self.item.ingredient_id < other.item.ingredient_id;
        }
        str_lt(self.item.unit.as_str(), other.item.unit.as_str())
    }

    proof fn lemma_irreflexive(a: &Self) {
        lemma_text_lt_irreflexive(a.item.ingredient_name@);
        lemma_text_lt_irreflexive(a.item.unit@);
    }

    proof fn lemma_transitive(a: &Self, b: &Self, c: &Self) {
        let an = a.item.ingredient_name@;
        let bn = b.item.ingredient_name@;
        let cn = c.item.ingredient_name@;
        lemma_text_lt_irreflexive(an);
        lemma_text_lt_irreflexive(bn);
        lemma_text_lt_irreflexive(cn);
        if a.sort_order == b.sort_order && b.sort_order == c.sort_order {
            if text_lt(an, bn) && text_lt(bn, cn) {
                lemma_text_lt_transitive(an, bn, cn);
            } else if an == bn && bn == cn {
                if a.item.ingredient_id == b.item.ingredient_id && b.item.ingredient_id
                    == c.item.ingredient_id {
                    lemma_text_lt_transitive(a.item.unit@, b.item.unit@, c.item.unit@);
                }
            }
        }
    }
}

/// The sort order of the category of the ingredient; 0 where the ingredient
/// or its category is not known.
pub open spec fn category_sort_order(
    id: i64,
    ingredients: Seq<Ingredient>,
    categories: Seq<Category>,
) -> int {
    match ingredient_index(ingredients, id) {
        Some(p) => match category_index(categories, ingredients[p].category_id) {
            Some(c) => categories[c].sort_order as int,
            None => 0,
        },
        None => 0,
    }
}

/// The item comes strictly before the other in a shopping list: its
/// category has the smaller sort order, or the same and its ingredient's
/// name comes first; items that agree in both go by the ingredient's id and
/// then by the unit.
pub open spec fn item_before(
    a: ShoppingListItem,
    b: ShoppingListItem,
    ingredients: Seq<Ingredient>,
    categories: Seq<Category>,
) -> bool {
    place_before(
        category_sort_order(a.ingredient_id, ingredients, categories),
        a.ingredient_name@,
        a.ingredient_id,
        a.unit@,
        category_sort_order(b.ingredient_id, ingredients, categories),
        b.ingredient_name@,
        b.ingredient_id,
        b.unit@,
    )
}

/// The item is what the lines and the catalogue make of its ingredient and
/// unit: the names of the ingredient and of its category, and the total of
/// the lines for that ingredient in that unit, of which there is one.
pub open spec fn item_ok(
    item: ShoppingListItem,
    lines: Seq<Contribution>,
    ingredients: Seq<Ingredient>,
    categories: Seq<Category>,
) -> bool {
    &&& ingredient_index(ingredients, item.ingredient_id) is Some
    &&& {
        let ingredient = ingredients[ingredient_index(ingredients, item.ingredient_id)->0];
        &&& item.ingredient_name == ingredient.name
        &&& category_index(categories, ingredient.category_id) is Some
        &&& item.category_name == categories[category_index(
            categories,
            ingredient.category_id,
        )->0].name
    }
    &&& item.total_quantity.wf()
    &&& total_of(lines, item.ingredient_id, item.unit@) == Some(item.total_quantity)
    &&& key_occurs(lines, item.ingredient_id, item.unit@)
}

/// The item is for the ingredient `id` in the unit `unit`.
pub open spec fn item_for(item: ShoppingListItem, id: i64, unit: Seq<char>) -> bool {
    item.ingredient_id == id && item.unit@ == unit
}

/// Some item is for the ingredient and unit.
pub open spec fn has_item(items: Seq<ShoppingListItem>, id: i64, unit: Seq<char>) -> bool {
    exists|i: int| 0 <= i < items.len() && item_for(#[trigger] items[i], id, unit)
}

/// The shopping list of the lines: one item for each ingredient and unit
/// that occurs, none twice, each with its names and its total, by category
/// sort order and then by ingredient name; what agrees in both goes by the
/// ingredient's id and then by the unit, so that the places of all items are
/// fixed.
pub open spec fn is_shopping_list(
    items: Seq<ShoppingListItem>,
    lines: Seq<Contribution>,
    ingredients: Seq<Ingredient>,
    categories: Seq<Category>,
) -> bool {
    &&& forall|i: int|
        0 <= i < items.len() ==> item_ok(#[trigger] items[i], lines, ingredients, categories)
    &&& forall|i: int, j: int|
        #![trigger items[i], items[j]]
        0 <= i < j < items.len() ==> !item_for(items[i], items[j].ingredient_id, items[j].unit@)
    &&& forall|k: int|
        0 <= k < lines.len() ==> has_item(items, (#[trigger] lines[k]).ingredient_id, lines[k].unit@)
    &&& forall|i: int, j: int|
        #![trigger items[i], items[j]]
        0 <= i < j < items.len() ==> !item_before(items[j], items[i], ingredients, categories)
}

/// The ingredient of every contribution is known, with its category.
pub open spec fn contributions_resolve(
    lines: Seq<Contribution>,
    ingredients: Seq<Ingredient>,
    categories: Seq<Category>,
) -> bool {
    forall|k: int|
        0 <= k < lines.len() ==> id_resolves(
            (#[trigger] lines[k]).ingredient_id,
            ingredients,
            categories,
        )
}

/// The ingredient is known, and so is its category.
pub open spec fn id_resolves(id: i64, ingredients: Seq<Ingredient>, categories: Seq<Category>)
    -> bool {
    match ingredient_index(ingredients, id) {
        Some(p) => category_index(categories, ingredients[p].category_id) is Some,
        None => false,
    }
}

/// Where the references of the meals resolve, so do the ingredients of
/// their contributions.
pub proof fn lemma_contributions_resolve(
    camp: Camp,
    meals: Seq<ScheduledMeal>,
    recipes: Seq<RecipeWithIngredients>,
    ingredients: Seq<Ingredient>,
    categories: Seq<Category>,
    start: Date,
    end: Date,
)
    requires
        references_resolve(meals, recipes, ingredients, categories, start, end),
    ensures
        contributions_resolve(
            contributions(camp, meals, recipes, start, end),
            ingredients,
            categories,
        ),
    decreases meals.len(),
{
    if meals.len() > 0 {
        let rest = meals.drop_last();
        let meal = meals.last();
        assert forall|i: int|
            0 <= i < rest.len() && date_in_range((#[trigger] rest[i]).date, start, end) implies meal_resolves(
            rest[i],
            recipes,
            ingredients,
            categories,
        ) by {
            assert(rest[i] == meals[i]);
        }
        lemma_contributions_resolve(camp, rest, recipes, ingredients, categories, start, end);
        let head = contributions(camp, rest, recipes, start, end);
        let tail = meal_contributions(camp, meal, recipes, start, end);
        let all = contributions(camp, meals, recipes, start, end);
        assert(all == head + tail);
        assert forall|k: int| 0 <= k < all.len() implies id_resolves(
            (#[trigger] all[k]).ingredient_id,
            ingredients,
            categories,
        ) by {
            if k < head.len() {
                assert(all[k] == head[k]);
            } else {
                let j = k - head.len();
                assert(all[k] == tail[j]);
                assert(meals[meals.len() - 1] == meal);
                assert(meal_resolves(meal, recipes, ingredients, categories));
                let r = recipe_index(recipes, meal.meal.planned_meal.recipe_id)->0;
                assert(line_resolves(
                    recipes[r].ingredients@[j].recipe_ingredient,
                    ingredients,
                    categories,
                ));
            }
        }
    }
}

/// The entry holds a well-made item and the sort order of its category.
pub open spec fn entry_ok(
    e: ShoppingEntry,
    lines: Seq<Contribution>,
    ingredients: Seq<Ingredient>,
    categories: Seq<Category>,
) -> bool {
    &&& item_ok(e.item, lines, ingredients, categories)
    &&& e.sort_order == category_sort_order(e.item.ingredient_id, ingredients, categories)
}

/// Some entry is for the ingredient and unit.
pub open spec fn has_entry(entries: Seq<ShoppingEntry>, id: i64, unit: Seq<char>) -> bool {
    exists|i: int| 0 <= i < entries.len() && item_for((#[trigger] entries[i]).item, id, unit)
}

/// No two entries are for the same ingredient and unit.
pub open spec fn entries_distinct(entries: Seq<ShoppingEntry>) -> bool {
    forall|i: int, j: int|
        #![trigger entries[i], entries[j]]
        0 <= i < j < entries.len() ==> !item_for(
            entries[i].item,
            entries[j].item.ingredient_id,
            entries[j].item.unit@,
        )
}

/// The entries are those of the lines: one for each ingredient and unit that
/// occurs, none twice, each well made.
pub open spec fn entries_of(
    entries: Seq<ShoppingEntry>,
    lines: Seq<Contribution>,
    ingredients: Seq<Ingredient>,
    categories: Seq<Category>,
) -> bool {
    &&& forall|i: int|
        0 <= i < entries.len() ==> entry_ok(#[trigger] entries[i], lines, ingredients, categories)
    &&& entries_distinct(entries)
    &&& forall|k: int|
        0 <= k < lines.len() ==> has_entry(
            entries,
            (#[trigger] lines[k]).ingredient_id,
            lines[k].unit@,
        )
}

/// The entry of a group: its total with the names of its ingredient and
/// category. `None` where the ingredient or its category is not known.
pub fn make_entry(group: &Group, ingredients: &Vec<Ingredient>, categories: &Vec<Category>) -> (r:
    Option<ShoppingEntry>)
    ensures
        r is Some <==> id_resolves(group.ingredient_id, ingredients@, categories@),
        r is Some ==> {
            let e = r->0;
            let p = ingredient_index(ingredients@, group.ingredient_id)->0;
            let c = category_index(categories@, ingredients@[p].category_id)->0;
            &&& e.item.ingredient_id == group.ingredient_id
            &&& e.item.unit == group.unit
            &&& e.item.total_quantity == group.total
            &&& e.item.ingredient_name == ingredients@[p].name
            &&& e.item.category_name == categories@[c].name
            &&& e.sort_order == categories@[c].sort_order
        },
{
    match find_ingredient(ingredients, group.ingredient_id) {
        None => None,
        Some(p) => {
            match find_category(categories, ingredients[p].category_id) {
                None => None,
                Some(c) => Some(
                    ShoppingEntry {
                        item: ShoppingListItem {
                            ingredient_id: group.ingredient_id,
                            ingredient_name: ingredients[p].name.clone(),
                            category_name: categories[c].name.clone(),
                            total_quantity: group.total,
                            unit: group.unit.clone(),
                        },
                        sort_order: categories[c].sort_order,
                    },
                ),
            }
        },
    }
}

/// A line that has a group has an entry, where the entries have the keys of
/// the groups.
proof fn lemma_entry_cover(
    groups: Seq<Group>,
    entries: Seq<ShoppingEntry>,
    id: i64,
    unit: Seq<char>,
)
    requires
        has_group(groups, id, unit),
        entries.len() == groups.len(),
        forall|i: int|
            0 <= i < groups.len() ==> (#[trigger] entries[i]).item.ingredient_id
                == groups[i].ingredient_id && entries[i].item.unit@ == groups[i].unit@,
    ensures
        has_entry(entries, id, unit),
{
    let i = choose|i: int| 0 <= i < groups.len() && group_for(#[trigger] groups[i], id, unit);
    assert(item_for(entries[i].item, id, unit));
}

/// The entries of the groups, in the order of the groups. `None` where the
/// ingredient of a group, or its category, is not known.
fn build_entries(
    groups: &Vec<Group>,
    ingredients: &Vec<Ingredient>,
    categories: &Vec<Category>,
    Ghost(lines): Ghost<Seq<Contribution>>,
) -> (r: Option<Vec<ShoppingEntry>>)
    requires
        groups_of(groups@, lines),
    ensures
        r is Some ==> entries_of(r->0@, lines, ingredients@, categories@),
        contributions_resolve(lines, ingredients@, categories@) ==> r is Some,
{
    let mut out: Vec<ShoppingEntry> = Vec::new();
    let mut i: usize = 0;
    while i < groups.len()
        invariant
            i <= groups@.len(),
            groups_of(groups@, lines),
            out@.len() == i,
            forall|x: int|
                0 <= x < i ==> entry_ok(#[trigger] out@[x], lines, ingredients@, categories@),
            forall|x: int|
                0 <= x < i ==> (#[trigger] out@[x]).item.ingredient_id == groups@[x].ingredient_id
                    && out@[x].item.unit@ == groups@[x].unit@,
        decreases groups@.len() - i,
    {
        let group: &Group = &groups[i];
        proof {
            assert(group_ok(groups@[i as int], lines));
        }
        match make_entry(group, ingredients, categories) {
            None => {
                proof {
                    if contributions_resolve(lines, ingredients@, categories@) {
                        let k = choose|k: int|
                            0 <= k < lines.len() && same_key(
                                #[trigger] lines[k],
                                group.ingredient_id,
                                group.unit@,
                            );
                        assert(id_resolves(lines[k].ingredient_id, ingredients@, categories@));
                    }
                }
                return None;
            },
            Some(entry) => {
                out.push(entry);
            },
        }
        i += 1;
    }
    proof {
        let entries = out@;
        assert forall|a: int, b: int|
            #![trigger entries[a], entries[b]]
            0 <= a < b < entries.len() implies !item_for(
            entries[a].item,
            entries[b].item.ingredient_id,
            entries[b].item.unit@,
        ) by {
            assert(!group_for(groups@[a], groups@[b].ingredient_id, groups@[b].unit@));
        }
        assert forall|k: int| 0 <= k < lines.len() implies has_entry(
            entries,
            (#[trigger] lines[k]).ingredient_id,
            lines[k].unit@,
        ) by {
            assert(has_group(groups@, lines[k].ingredient_id, lines[k].unit@));
            lemma_entry_cover(groups@, entries, lines[k].ingredient_id, lines[k].unit@);
        }
    }
    Some(out)
}

/// Entries that are rearranged are still those of the lines.
proof fn lemma_entries_rearranged(
    entries: Seq<ShoppingEntry>,
    sorted: Seq<ShoppingEntry>,
    lines: Seq<Contribution>,
    ingredients: Seq<Ingredient>,
    categories: Seq<Category>,
)
    requires
        entries_of(entries, lines, ingredients, categories),
        sorted.to_multiset() == entries.to_multiset(),
    ensures
        entries_of(sorted, lines, ingredients, categories),
{
    broadcast use vstd::seq_lib::group_to_multiset_ensures;

    assert(entries.no_duplicates()) by {
        assert forall|i: int, j: int|
            (0 <= i < entries.len() && 0 <= j < entries.len() && i != j) implies entries[i]
            != entries[j] by {
            if i < j {
                assert(!item_for(
                    entries[i].item,
                    entries[j].item.ingredient_id,
                    entries[j].item.unit@,
                ));
            } else {
                assert(!item_for(
                    entries[j].item,
                    entries[i].item.ingredient_id,
                    entries[i].item.unit@,
                ));
            }
        }
    }
    entries.lemma_multiset_has_no_duplicates();
    sorted.lemma_multiset_has_no_duplicates_conv();
    assert forall|i: int| 0 <= i < sorted.len() implies entry_ok(
        #[trigger] sorted[i],
        lines,
        ingredients,
        categories,
    ) by {
        assert(sorted.to_multiset().contains(sorted[i]));
        assert(entries.to_multiset().contains(sorted[i]));
        let p = choose|p: int| 0 <= p < entries.len() && entries[p] == sorted[i];
        assert(entry_ok(entries[p], lines, ingredients, categories));
    }
    assert forall|i: int, j: int|
        #![trigger sorted[i], sorted[j]]
        0 <= i < j < sorted.len() implies !item_for(
        sorted[i].item,
        sorted[j].item.ingredient_id,
        sorted[j].item.unit@,
    ) by {
        assert(sorted.to_multiset().contains(sorted[i]));
        assert(sorted.to_multiset().contains(sorted[j]));
        assert(entries.to_multiset().contains(sorted[i]));
        assert(entries.to_multiset().contains(sorted[j]));
        let p = choose|p: int| 0 <= p < entries.len() && entries[p] == sorted[i];
        let q = choose|q: int| 0 <= q < entries.len() && entries[q] == sorted[j];
        assert(sorted[i] != sorted[j]);
        if p < q {
            assert(!item_for(entries[p].item, entries[q].item.ingredient_id, entries[q].item.unit@));
        } else {
            assert(!item_for(entries[q].item, entries[p].item.ingredient_id, entries[p].item.unit@));
        }
    }
    assert forall|k: int| 0 <= k < lines.len() implies has_entry(
        sorted,
        (#[trigger] lines[k]).ingredient_id,
        lines[k].unit@,
    ) by {
        assert(has_entry(entries, lines[k].ingredient_id, lines[k].unit@));
        let i = choose|i: int|
            0 <= i < entries.len() && item_for(
                (#[trigger] entries[i]).item,
                lines[k].ingredient_id,
                lines[k].unit@,
            );
        assert(entries.to_multiset().contains(entries[i]));
        assert(sorted.to_multiset().contains(entries[i]));
        let j = choose|j: int| 0 <= j < sorted.len() && sorted[j] == entries[i];
        assert(item_for(sorted[j].item, lines[k].ingredient_id, lines[k].unit@));
    }
}

/// The items of sorted entries are a shopping list.
proof fn lemma_items_of_entries(
    sorted: Seq<ShoppingEntry>,
    items: Seq<ShoppingListItem>,
    lines: Seq<Contribution>,
    ingredients: Seq<Ingredient>,
    categories: Seq<Category>,
)
    requires
        entries_of(sorted, lines, ingredients, categories),
        is_sorted(sorted),
        items.len() == sorted.len(),
        forall|i: int| 0 <= i < items.len() ==> #[trigger] items[i] == sorted[i].item,
    ensures
        is_shopping_list(items, lines, ingredients, categories),
{
    assert forall|i: int| 0 <= i < items.len() implies item_ok(
        #[trigger] items[i],
        lines,
        ingredients,
        categories,
    ) by {
        assert(entry_ok(sorted[i], lines, ingredients, categories));
    }
    assert forall|i: int, j: int|
        #![trigger items[i], items[j]]
        0 <= i < j < items.len() implies !item_for(
        items[i],
        items[j].ingredient_id,
        items[j].unit@,
    ) by {
        assert(!item_for(sorted[i].item, sorted[j].item.ingredient_id, sorted[j].item.unit@));
    }
    assert forall|k: int| 0 <= k < lines.len() implies has_item(
        items,
        (#[trigger] lines[k]).ingredient_id,
        lines[k].unit@,
    ) by {
        assert(has_entry(sorted, lines[k].ingredient_id, lines[k].unit@));
        let i = choose|i: int|
            0 <= i < sorted.len() && item_for(
                (#[trigger] sorted[i]).item,
                lines[k].ingredient_id,
                lines[k].unit@,
            );
        assert(item_for(items[i], lines[k].ingredient_id, lines[k].unit@));
    }
    assert forall|i: int, j: int|
        #![trigger items[i], items[j]]
        0 <= i < j < items.len() implies !item_before(
        items[j],
        items[i],
        ingredients,
        categories,
    ) by {
        assert(entry_ok(sorted[i], lines, ingredients, categories));
        assert(entry_ok(sorted[j], lines, ingredients, categories));
        assert(!sorted[j].precedes(&sorted[i]));
    }
}

/// The shopping list of a camp for the meals from `start` to `end`.
///
/// Every ingredient line of every planned meal in the range is scaled to the
/// head counts that count for the meal, and the quantities are added up by
/// ingredient and unit, in the order of the meals and of the lines. The
/// items are ordered by the sort order of the ingredient's category and then
/// by the ingredient's name; items that agree in both go by the ingredient's
/// id and then by the unit.
///
/// `NotFound` is returned exactly where a meal in the range names an unknown
/// recipe, or a line of its recipe an unknown ingredient or an ingredient of
/// an unknown category; `Overflow` exactly where all of these are known and
/// a quantity or a total cannot be represented.
pub fn generate_shopping_list(
    camp: &Camp,
    start: Date,
    end: Date,
    meals: &Vec<ScheduledMeal>,
    recipes: &Vec<RecipeWithIngredients>,
    ingredients: &Vec<Ingredient>,
    categories: &Vec<Category>,
) -> (r: Result<Vec<ShoppingListItem>, ReportError>)
    requires
        camp.wf(),
        meals_wf(meals@),
        recipes_wf(recipes@),
    ensures
        match r {
            Ok(items) => {
                &&& references_resolve(meals@, recipes@, ingredients@, categories@, start, end)
                &&& totals_fit(contributions(*camp, meals@, recipes@, start, end))
                &&& is_shopping_list(
                    items@,
                    contributions(*camp, meals@, recipes@, start, end),
                    ingredients@,
                    categories@,
                )
            },
            Err(ReportError::NotFound) => !references_resolve(
                meals@,
                recipes@,
                ingredients@,
                categories@,
                start,
                end,
            ),
            Err(ReportError::Overflow) => references_resolve(
                meals@,
                recipes@,
                ingredients@,
                categories@,
                start,
                end,
            ) && !totals_fit(contributions(*camp, meals@, recipes@, start, end)),
        },
{
    if !check_references(meals, recipes, ingredients, categories, start, end) {
        return Err(ReportError::NotFound);
    }
    let lines: Vec<Contribution> = collect_contributions(camp, meals, recipes, start, end);
    proof {
        lemma_contributions_resolve(
            *camp,
            meals@,
            recipes@,
            ingredients@,
            categories@,
            start,
            end,
        );
    }
    let groups: Vec<Group> = match accumulate(&lines) {
        None => {
            return Err(ReportError::Overflow);
        },
        Some(groups) => groups,
    };
    let entries: Vec<ShoppingEntry> = match build_entries(
        &groups,
        ingredients,
        categories,
        Ghost(lines@),
    ) {
        None => {
            return Err(ReportError::NotFound);
        },
        Some(entries) => entries,
    };
    let ghost unsorted: Seq<ShoppingEntry> = entries@;
    let mut sorted: Vec<ShoppingEntry> = sort_by_key(entries);
    proof {
        lemma_entries_rearranged(unsorted, sorted@, lines@, ingredients@, categories@);
    }
    let ghost ordered: Seq<ShoppingEntry> = sorted@;
    let mut items: Vec<ShoppingListItem> = Vec::new();
    // The entries are taken from the end, so the items are built back to
    // front.
    while sorted.len() > 0
        invariant
            sorted@.len() <= ordered.len(),
            sorted@ == ordered.take(sorted@.len() as int),
            items@.len() == ordered.len() - sorted@.len(),
            forall|x: int|
                0 <= x < items@.len() ==> #[trigger] items@[x] == ordered[sorted@.len() + x].item,
        decreases sorted@.len(),
    {
        let ghost before: Seq<ShoppingListItem> = items@;
        let ghost m: int = sorted@.len() as int;
        let entry: ShoppingEntry = sorted.pop().unwrap();
        items.insert(0, entry.item);
        proof {
            assert(sorted@ =~= ordered.take(m - 1));
            assert forall|x: int| 0 <= x < items@.len() implies #[trigger] items@[x] == ordered[m
                - 1 + x].item by {
                if x > 0 {
                    assert(items@[x] == before[x - 1]);
                }
            }
        }
    }
    proof {
        lemma_items_of_entries(ordered, items@, lines@, ingredients@, categories@);
    }
    Ok(items)
}

} // verus!
