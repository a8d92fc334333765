//! What holds of every shopping list: its totals are exact sums that do not
//! depend on the order of the meals, and its items are grouped by category.

use vstd::prelude::*;
use crate::camp::Camp;
use crate::catalog::{category_index, ingredient_index, lemma_category_index, Category, Ingredient};
use crate::date::Date;
use crate::meal_plan::ScheduledMeal;
use vstd::arithmetic::mul::{
    lemma_mul_is_associative, lemma_mul_is_distributive_add_other_way,
};
use crate::ratio::{
    lemma_normalize_reduced, lemma_normalize_value, lemma_reduced_unique, lemma_swap_last,
    lemma_value_unique, lemma_whole_is_reduced, Ratio,
};
use crate::recipe::RecipeWithIngredients;
use crate::contributions::{contributions, meal_contributions, quantities_wf, Contribution};
use crate::shopping::{
    category_sort_order, is_shopping_list, item_before, item_for, item_ok, ShoppingListItem,
};
use crate::totals::{same_key, total_of};
use crate::text::lemma_text_lt_total;

verus! {

/// Adds the quantity of a contribution for the ingredient and unit to a
/// fraction `(numerator, denominator)`, without reducing it.
pub open spec fn add_exact(id: i64, unit: Seq<char>) -> spec_fn((int, int), Contribution) -> (
    int,
    int,
) {
    |acc: (int, int), c: Contribution|
        if same_key(c, id, unit) && c.quantity is Some {
            (acc.0 * c.quantity->0.den + c.quantity->0.num * acc.1, acc.1 * c.quantity->0.den)
        } else {
            acc
        }
}

/// The sum of the quantities for the ingredient and unit as a fraction
/// `(numerator, denominator)` that is not reduced.
pub open spec fn exact_total(lines: Seq<Contribution>, id: i64, unit: Seq<char>) -> (int, int) {
    lines.fold_left((0int, 1int), add_exact(id, unit))
}

/// Adding `q` to a ratio that denotes `n / d` gives one that denotes
/// `(n * q.den + q.num * d) / (d * q.den)`.
proof fn lemma_add_keeps_value(t: Ratio, q: Ratio, n: int, d: int, sum: Ratio)
    requires
        t.wf(),
        q.wf(),
        d > 0,
        t.is_value(n, d),
        t.spec_checked_add(q) == Some(sum),
    ensures
        d * q.den > 0,
        sum.wf(),
        sum.is_value(n * q.den + q.num * d, d * q.den),
{
    let tn = t.num as int;
    let td = t.den as int;
    let qn = q.num as int;
    let qd = q.den as int;
    let sn = sum.num as int;
    let sd = sum.den as int;
    assert(td * qd > 0) by (nonlinear_arith)
        requires
            td >= 1,
            qd >= 1,
    ;
    assert(d * qd > 0) by (nonlinear_arith)
        requires
            d >= 1,
            qd >= 1,
    ;
    lemma_normalize_value(tn * qd + qn * td, td * qd);
    // sn * (td * qd) == (tn * qd + qn * td) * sd, and tn * d == n * td
    let lhs = sn * (d * qd);
    let rhs = (n * qd + qn * d) * sd;
    assert(lhs * td == (sn * (td * qd)) * d) by (nonlinear_arith)
        requires
            lhs == sn * (d * qd),
    ;
    let a = tn * d;
    assert(((tn * qd + qn * td) * sd) * d == (a * qd + qn * td * d) * sd) by (nonlinear_arith)
        requires
            a == tn * d,
    ;
    let b = n * td;
    let x = n * qd + qn * d;
    lemma_swap_last(x, sd, td);
    lemma_mul_is_distributive_add_other_way(td, n * qd, qn * d);
    lemma_swap_last(n, qd, td);
    lemma_swap_last(qn, d, td);
    assert(x * td == b * qd + qn * td * d);
    assert((b * qd + qn * td * d) * sd == rhs * td);
    crate::ratio::lemma_cancel(lhs, rhs, td);
}

/// A total that can be represented is exactly the sum of the quantities for
/// its ingredient and unit.
pub proof fn lemma_total_is_exact(lines: Seq<Contribution>, id: i64, unit: Seq<char>)
    requires
        quantities_wf(lines),
        total_of(lines, id, unit) is Some,
    ensures
        exact_total(lines, id, unit).1 > 0,
        total_of(lines, id, unit)->0.wf(),
        total_of(lines, id, unit)->0.is_value(
            exact_total(lines, id, unit).0,
            exact_total(lines, id, unit).1,
        ),
    decreases lines.len(),
{
    if lines.len() == 0 {
        assert(0 * 1 == 0 * 1);
    } else {
        let rest = lines.drop_last();
        let last = lines.last();
        assert forall|k: int| 0 <= k < rest.len() && (#[trigger] rest[k]).quantity is Some implies rest[k].quantity->0.wf()
            && rest[k].quantity->0.num >= 0 by {
            assert(rest[k] == lines[k]);
        }
        assert(lines[lines.len() - 1] == last);
        lemma_total_is_exact(rest, id, unit);
        if same_key(last, id, unit) {
            let t = total_of(rest, id, unit)->0;
            let q = last.quantity->0;
            let e = exact_total(rest, id, unit);
            lemma_add_keeps_value(t, q, e.0, e.1, total_of(lines, id, unit)->0);
        }
    }
}

/// Adding two contributions to a fraction gives the same fraction in either
/// order.
proof fn lemma_add_exact_commutes(id: i64, unit: Seq<char>)
    ensures
        vstd::seq_lib::commutative_foldl(add_exact(id, unit)),
{
    let f = add_exact(id, unit);
    assert forall|x: Contribution, y: Contribution, v: (int, int)| #[trigger]
        f(f(v, x), y) == f(f(v, y), x) by {
        if same_key(x, id, unit) && x.quantity is Some && same_key(y, id, unit) && y.quantity
            is Some {
            let xn = x.quantity->0.num as int;
            let xd = x.quantity->0.den as int;
            let yn = y.quantity->0.num as int;
            let yd = y.quantity->0.den as int;
            let n = v.0;
            let d = v.1;
            lemma_mul_is_distributive_add_other_way(yd, n * xd, xn * d);
            lemma_mul_is_distributive_add_other_way(xd, n * yd, yn * d);
            lemma_swap_last(n, xd, yd);
            lemma_mul_is_associative(xn, d, yd);
            lemma_mul_is_associative(yn, d, xd);
            lemma_swap_last(d, xd, yd);
            assert((n * xd + xn * d) * yd + yn * (d * xd) == (n * yd + yn * d) * xd + xn * (d
                * yd));
            assert((d * xd) * yd == (d * yd) * xd);
        }
    }
}

/// The exact sum for an ingredient and unit depends only on which
/// contributions there are, not on their order.
pub proof fn lemma_exact_total_ignores_order(
    a: Seq<Contribution>,
    b: Seq<Contribution>,
    id: i64,
    unit: Seq<char>,
)
    requires
        a.to_multiset() == b.to_multiset(),
    ensures
        exact_total(a, id, unit) == exact_total(b, id, unit),
{
    lemma_add_exact_commutes(id, unit);
    vstd::seq_lib::lemma_fold_left_permutation(a, b, add_exact(id, unit), (0int, 1int));
}

/// A total that can be represented is in lowest terms.
pub proof fn lemma_total_reduced(lines: Seq<Contribution>, id: i64, unit: Seq<char>)
    requires
        quantities_wf(lines),
        total_of(lines, id, unit) is Some,
    ensures
        total_of(lines, id, unit)->0.is_reduced(),
    decreases lines.len(),
{
    if lines.len() == 0 {
        lemma_whole_is_reduced(0);
    } else {
        let rest = lines.drop_last();
        let last = lines.last();
        assert forall|k: int| 0 <= k < rest.len() && (#[trigger] rest[k]).quantity is Some implies rest[k].quantity->0.wf()
            && rest[k].quantity->0.num >= 0 by {
            assert(rest[k] == lines[k]);
        }
        assert(lines[lines.len() - 1] == last);
        if same_key(last, id, unit) {
            let t = total_of(rest, id, unit)->0;
            let q = last.quantity->0;
            lemma_total_is_exact(rest, id, unit);
            assert(t.den * q.den > 0) by (nonlinear_arith)
                requires
                    t.den >= 1,
                    q.den >= 1,
            ;
            lemma_normalize_reduced(t.num * q.den + q.num * t.den, t.den * q.den);
        } else {
            lemma_total_reduced(rest, id, unit);
        }
    }
}

/// Adding up does not depend on the order: two totals for the same
/// ingredient and unit, taken over the same contributions in any two
/// orders, are equal wherever both can be represented.
pub proof fn lemma_total_ignores_order(
    a: Seq<Contribution>,
    b: Seq<Contribution>,
    id: i64,
    unit: Seq<char>,
)
    requires
        quantities_wf(a),
        quantities_wf(b),
        a.to_multiset() == b.to_multiset(),
        total_of(a, id, unit) is Some,
        total_of(b, id, unit) is Some,
    ensures
        total_of(a, id, unit) == total_of(b, id, unit),
{
    lemma_total_is_exact(a, id, unit);
    lemma_total_is_exact(b, id, unit);
    lemma_exact_total_ignores_order(a, b, id, unit);
    let e = exact_total(a, id, unit);
    lemma_value_unique(total_of(a, id, unit)->0, total_of(b, id, unit)->0, e.0, e.1);
    lemma_total_reduced(a, id, unit);
    lemma_total_reduced(b, id, unit);
    lemma_reduced_unique(total_of(a, id, unit)->0, total_of(b, id, unit)->0);
}

/// The contributions of meals listed one after the other are the
/// contributions of the first meals followed by those of the others.
pub proof fn lemma_contributions_concat(
    camp: Camp,
    a: Seq<ScheduledMeal>,
    b: Seq<ScheduledMeal>,
    recipes: Seq<RecipeWithIngredients>,
    start: Date,
    end: Date,
)
    ensures
        contributions(camp, a + b, recipes, start, end) == contributions(
            camp,
            a,
            recipes,
            start,
            end,
        ) + contributions(camp, b, recipes, start, end),
    decreases b.len(),
{
    if b.len() == 0 {
        assert(a + b =~= a);
        assert(contributions(camp, a, recipes, start, end) + Seq::<Contribution>::empty()
            =~= contributions(camp, a, recipes, start, end));
    } else {
        let all = a + b;
        assert(all.drop_last() =~= a + b.drop_last());
        assert(all.last() == b.last());
        lemma_contributions_concat(camp, a, b.drop_last(), recipes, start, end);
        let ca = contributions(camp, a, recipes, start, end);
        let cb = contributions(camp, b.drop_last(), recipes, start, end);
        let m = meal_contributions(camp, b.last(), recipes, start, end);
        assert((ca + cb) + m =~= ca + (cb + m));
    }
}

/// The contributions of the meals depend, up to their order, only on which
/// meals there are.
pub proof fn lemma_contributions_rearranged(
    camp: Camp,
    a: Seq<ScheduledMeal>,
    b: Seq<ScheduledMeal>,
    recipes: Seq<RecipeWithIngredients>,
    start: Date,
    end: Date,
)
    requires
        a.to_multiset() == b.to_multiset(),
    ensures
        contributions(camp, a, recipes, start, end).to_multiset() == contributions(
            camp,
            b,
            recipes,
            start,
            end,
        ).to_multiset(),
    decreases a.len(),
{
    broadcast use vstd::seq_lib::group_to_multiset_ensures;

    vstd::seq_lib::to_multiset_len(a);
    vstd::seq_lib::to_multiset_len(b);
    if a.len() == 0 {
        assert(a =~= b);
    } else {
        let m = a.last();
        assert(a.to_multiset().contains(m));
        assert(b.to_multiset().contains(m));
        let k = choose|k: int| 0 <= k < b.len() && b[k] == m;
        let b1 = b.take(k);
        let b2 = b.skip(k + 1);
        let rest_b = b.remove(k);
        assert(rest_b =~= b1 + b2);
        assert(b =~= (b1 + seq![m]) + b2);
        let rest_a = a.drop_last();
        assert(rest_a =~= a.remove(a.len() - 1));
        vstd::seq_lib::to_multiset_remove(a, a.len() - 1);
        vstd::seq_lib::to_multiset_remove(b, k);
        lemma_contributions_rearranged(camp, rest_a, rest_b, recipes, start, end);
        let c1 = contributions(camp, b1, recipes, start, end);
        let c2 = contributions(camp, b2, recipes, start, end);
        let cm = meal_contributions(camp, m, recipes, start, end);
        lemma_contributions_concat(camp, b1, b2, recipes, start, end);
        lemma_contributions_concat(camp, b1 + seq![m], b2, recipes, start, end);
        lemma_contributions_concat(camp, b1, seq![m], recipes, start, end);
        assert(contributions(camp, seq![m], recipes, start, end) =~= cm) by {
            let s = seq![m];
            assert(s.drop_last() =~= Seq::<ScheduledMeal>::empty());
            assert(s.last() == m);
            assert(contributions(camp, s.drop_last(), recipes, start, end) =~= Seq::<
                Contribution,
            >::empty());
            assert(Seq::<Contribution>::empty() + cm =~= cm);
        }
        let ca = contributions(camp, rest_a, recipes, start, end);
        // contributions(a) == ca + cm, contributions(b) == (c1 + cm) + c2
        vstd::seq_lib::lemma_multiset_commutative(ca, cm);
        vstd::seq_lib::lemma_multiset_commutative(c1, c2);
        vstd::seq_lib::lemma_multiset_commutative(c1, cm);
        vstd::seq_lib::lemma_multiset_commutative(c1 + cm, c2);
        assert(((c1 + cm) + c2).to_multiset() =~= (c1 + c2).to_multiset().add(cm.to_multiset()));
    }
}

/// The order in which the meals are given does not change a total: for the
/// same meals in any two orders, two totals for the same ingredient and unit
/// that can both be represented are equal.
pub proof fn lemma_total_ignores_meal_order(
    camp: Camp,
    a: Seq<ScheduledMeal>,
    b: Seq<ScheduledMeal>,
    recipes: Seq<RecipeWithIngredients>,
    start: Date,
    end: Date,
    id: i64,
    unit: Seq<char>,
)
    requires
        a.to_multiset() == b.to_multiset(),
        quantities_wf(contributions(camp, a, recipes, start, end)),
        quantities_wf(contributions(camp, b, recipes, start, end)),
        total_of(contributions(camp, a, recipes, start, end), id, unit) is Some,
        total_of(contributions(camp, b, recipes, start, end), id, unit) is Some,
    ensures
        total_of(contributions(camp, a, recipes, start, end), id, unit) == total_of(
            contributions(camp, b, recipes, start, end),
            id,
            unit,
        ),
{
    lemma_contributions_rearranged(camp, a, b, recipes, start, end);
    lemma_total_ignores_order(
        contributions(camp, a, recipes, start, end),
        contributions(camp, b, recipes, start, end),
        id,
        unit,
    );
}

/// No two categories have the same sort order.
pub open spec fn sort_orders_distinct(categories: Seq<Category>) -> bool {
    forall|a: int, b: int|
        #![trigger categories[a], categories[b]]
        0 <= a < b < categories.len() ==> categories[a].sort_order != categories[b].sort_order
}

/// The position, among the categories, of the category of the item's
/// ingredient.
pub open spec fn category_of(
    item: ShoppingListItem,
    ingredients: Seq<Ingredient>,
    categories: Seq<Category>,
) -> int {
    category_index(
        categories,
        ingredients[ingredient_index(ingredients, item.ingredient_id)->0].category_id,
    )->0
}

/// In a shopping list the sort orders of the categories
/// never decrease, and, where no two categories share a sort order, the
/// items of one category stand next to each other.
pub proof fn lemma_categories_contiguous(
    items: Seq<ShoppingListItem>,
    lines: Seq<Contribution>,
    ingredients: Seq<Ingredient>,
    categories: Seq<Category>,
)
    requires
        is_shopping_list(items, lines, ingredients, categories),
    ensures
        forall|i: int, j: int|
            #![trigger items[i], items[j]]
            0 <= i < j < items.len() ==> category_sort_order(
                items[i].ingredient_id,
                ingredients,
                categories,
            ) <= category_sort_order(items[j].ingredient_id, ingredients, categories),
        sort_orders_distinct(categories) ==> forall|i: int, j: int, k: int|
            #![trigger items[i], items[j], items[k]]
            0 <= i < j < k < items.len() && category_of(items[i], ingredients, categories)
                == category_of(items[k], ingredients, categories) ==> category_of(
                items[j],
                ingredients,
                categories,
            ) == category_of(items[i], ingredients, categories),
{
    assert forall|i: int, j: int|
        #![trigger items[i], items[j]]
        0 <= i < j < items.len() implies category_sort_order(
        items[i].ingredient_id,
        ingredients,
        categories,
    ) <= category_sort_order(items[j].ingredient_id, ingredients, categories) by {
        assert(!crate::shopping::item_before(items[j], items[i], ingredients, categories));
    }
    if sort_orders_distinct(categories) {
        assert forall|i: int, j: int, k: int|
            #![trigger items[i], items[j], items[k]]
            0 <= i < j < k < items.len() && category_of(items[i], ingredients, categories)
                == category_of(items[k], ingredients, categories) implies category_of(
            items[j],
            ingredients,
            categories,
        ) == category_of(items[i], ingredients, categories) by {
            assert(item_ok(items[i], lines, ingredients, categories));
            assert(item_ok(items[j], lines, ingredients, categories));
            assert(item_ok(items[k], lines, ingredients, categories));
            let ci = category_of(items[i], ingredients, categories);
            let cj = category_of(items[j], ingredients, categories);
            let pi = ingredient_index(ingredients, items[i].ingredient_id)->0;
            let pj = ingredient_index(ingredients, items[j].ingredient_id)->0;
            lemma_category_index(categories, ingredients[pi].category_id);
            lemma_category_index(categories, ingredients[pj].category_id);
            assert(!crate::shopping::item_before(items[j], items[i], ingredients, categories));
            assert(!crate::shopping::item_before(items[k], items[j], ingredients, categories));
            assert(categories[ci].sort_order == categories[cj].sort_order);
            if ci < cj {
                assert(categories[ci].sort_order != categories[cj].sort_order);
            } else if cj < ci {
                assert(categories[cj].sort_order != categories[ci].sort_order);
            }
        }
    }
}

/// A meal without an attendance record contributes
/// what its recipe needs for the camp's default head counts, and a meal with
/// one what its recipe needs for the record's head counts.
pub proof fn lemma_contributions_use_resolved_counts(
    camp: Camp,
    meal: ScheduledMeal,
    recipes: Seq<RecipeWithIngredients>,
    start: Date,
    end: Date,
)
    requires
        crate::schedule::date_in_range(meal.date, start, end),
        crate::references::recipe_index(recipes, meal.meal.planned_meal.recipe_id) is Some,
    ensures
        ({
            let recipe = recipes[crate::references::recipe_index(
                recipes,
                meal.meal.planned_meal.recipe_id,
            )->0];
            meal_contributions(camp, meal, recipes, start, end)
                == crate::contributions::recipe_contributions(
                recipe,
                match meal.meal.attendance {
                    Some(a) => crate::meal_plan::HeadCounts {
                        children: a.children,
                        teens: a.teens,
                        adults: a.adults,
                    },
                    None => crate::meal_plan::HeadCounts {
                        children: camp.default_children,
                        teens: camp.default_teens,
                        adults: camp.default_adults,
                    },
                },
            )
        }),
{
}

/// The places of the items of a shopping list are fixed: each item comes
/// strictly before every later one.
pub proof fn lemma_items_strictly_ordered(
    items: Seq<ShoppingListItem>,
    lines: Seq<Contribution>,
    ingredients: Seq<Ingredient>,
    categories: Seq<Category>,
)
    requires
        is_shopping_list(items, lines, ingredients, categories),
    ensures
        forall|i: int, j: int|
            #![trigger items[i], items[j]]
            0 <= i < j < items.len() ==> item_before(items[i], items[j], ingredients, categories),
{
    assert forall|i: int, j: int|
        #![trigger items[i], items[j]]
        0 <= i < j < items.len() implies item_before(
        items[i],
        items[j],
        ingredients,
        categories,
    ) by {
        assert(!item_before(items[j], items[i], ingredients, categories));
        assert(!item_for(items[i], items[j].ingredient_id, items[j].unit@));
        lemma_text_lt_total(items[i].ingredient_name@, items[j].ingredient_name@);
        lemma_text_lt_total(items[i].unit@, items[j].unit@);
    }
}

} // verus!
