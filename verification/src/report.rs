//! Ingredient reports: the lines of a shopping list under the headings of
//! their categories.

use vstd::prelude::*;
use crate::camp::Camp;
use crate::catalog::{Category, Ingredient};
use crate::date::Date;
use crate::meal_plan::ScheduledMeal;
use crate::ratio::Ratio;
use crate::recipe::RecipeWithIngredients;
use crate::schedule::date_in_range;
use crate::contributions::contributions;
use crate::references::{meals_wf, recipes_wf, references_resolve};
use crate::shopping::{generate_shopping_list, is_shopping_list, ReportError, ShoppingListItem};
use crate::totals::totals_fit;
use crate::text::str_equal;

verus! {

/// The language of a report.
#[derive(Clone, Copy, Debug, PartialEq, Eq, Structural)]
pub enum Language {
    Czech,
    English,
}

impl Language {
    /// The language for a language code: Czech for `cz`, English for any
    /// other code.
    pub fn from_code(code: &str) -> (r: Language)
        ensures
            r == (if code@ == "cz"@ {
                Language::Czech
            } else {
                Language::English
            }),
    {
        if str_equal(code, "cz") {
            Language::Czech
        } else {
            Language::English
        }
    }

    /// The title of the report on one day.
    pub fn daily_title(&self) -> (s: &'static str)
        ensures
            s@ == (match self {
                Language::Czech => "Denní přehled surovin"@,
                Language::English => "Daily Ingredient Report"@,
            }),
    {
        match self {
            Language::Czech => "Denní přehled surovin",
            Language::English => "Daily Ingredient Report",
        }
    }

    /// The title of the report on a whole camp.
    pub fn camp_title(&self) -> (s: &'static str)
        ensures
            s@ == (match self {
                Language::Czech => "Nákupní seznam"@,
                Language::English => "Shopping List"@,
            }),
    {
        match self {
            Language::Czech => "Nákupní seznam",
            Language::English => "Shopping List",
        }
    }

    /// The heading of the report on a whole camp.
    pub fn camp_heading(&self) -> (s: &'static str)
        ensures
            s@ == (match self {
                Language::Czech => "Nákupní seznam pro celý tábor"@,
                Language::English => "Shopping List for Entire Camp"@,
            }),
    {
        match self {
            Language::Czech => "Nákupní seznam pro celý tábor",
            Language::English => "Shopping List for Entire Camp",
        }
    }

    /// The words in front of the camp's name.
    pub fn camp_label(&self) -> (s: &'static str)
        ensures
            s@ == (match self {
                Language::Czech => "Tábor: "@,
                Language::English => "Camp: "@,
            }),
    {
        match self {
            Language::Czech => "Tábor: ",
            Language::English => "Camp: ",
        }
    }
}

/// One line of an ingredient report.
#[derive(Clone, Debug, PartialEq, Eq)]
pub enum ReportLine {
    /// The name of a category, in front of its ingredients.
    Heading { category_name: String },
    /// An ingredient with its total and unit.
    Item { ingredient_name: String, quantity: Ratio, unit: String },
}

/// The line of an item.
pub open spec fn item_line(item: ShoppingListItem) -> ReportLine {
    ReportLine::Item {
        ingredient_name: item.ingredient_name,
        quantity: item.total_quantity,
        unit: item.unit,
    }
}

/// The name of the category of the item in front of item `i`; empty for the
/// first item.
pub open spec fn category_before(items: Seq<ShoppingListItem>, i: int) -> Seq<char> {
    if i == 0 {
        Seq::empty()
    } else {
        items[i - 1].category_name@
    }
}

/// The lines of a report on the items: each item on a line, and in front of
/// it a heading with the name of its category where that differs from the
/// category of the item before; the first item has no heading if its
/// category has no name.
pub open spec fn report_lines_of(items: Seq<ShoppingListItem>) -> Seq<ReportLine>
    decreases items.len(),
{
    if items.len() == 0 {
        Seq::empty()
    } else {
        let rest = report_lines_of(items.drop_last());
        let last = items.last();
        if last.category_name@ != category_before(items, items.len() - 1) {
            rest.push(ReportLine::Heading { category_name: last.category_name }).push(
                item_line(last),
            )
        } else {
            rest.push(item_line(last))
        }
    }
}

/// The lines of a report on the items of a shopping list.
pub fn report_lines(items: &Vec<ShoppingListItem>) -> (r: Vec<ReportLine>)
    ensures
        r@ == report_lines_of(items@),
{
    let mut out: Vec<ReportLine> = Vec::new();
    let mut i: usize = 0;
    proof {
        assert(items@.take(0) =~= Seq::<ShoppingListItem>::empty());
    }
    while i < items.len()
        invariant
            i <= items@.len(),
            out@ == report_lines_of(items@.take(i as int)),
        decreases items@.len() - i,
    {
        let item: &ShoppingListItem = &items[i];
        proof {
            let next = items@.take(i + 1);
            assert(next.drop_last() =~= items@.take(i as int));
            assert(next.last() == *item);
            if i > 0 {
                assert(next[i - 1] == items@[i - 1]);
            }
        }
        let same: bool = if i == 0 {
            item.category_name.as_str().unicode_len() == 0
        } else {
            str_equal(item.category_name.as_str(), items[i - 1].category_name.as_str())
        };
        proof {
            let next = items@.take(i + 1);
            if i == 0 {
                assert(same == (item.category_name@ =~= Seq::<char>::empty()));
            }
            assert(same == (item.category_name@ == category_before(next, i as int)));
        }
        if !same {
            out.push(ReportLine::Heading { category_name: item.category_name.clone() });
        }
        out.push(
            ReportLine::Item {
                ingredient_name: item.ingredient_name.clone(),
                quantity: item.total_quantity,
                unit: item.unit.clone(),
            },
        );
        i += 1;
    }
    proof {
        assert(items@.take(i as int) =~= items@);
    }
    out
}

/// The earliest date that can be written.
pub open spec fn first_date() -> Date {
    Date { year: i32::MIN, month: 1, day: 1 }
}

/// The latest date that can be written.
pub open spec fn last_date() -> Date {
    Date { year: i32::MAX, month: 12, day: 31 }
}

/// Every date that exists lies between the earliest and the latest.
pub proof fn lemma_every_date_in_range(date: Date)
    requires
        date.wf(),
    ensures
        date_in_range(date, first_date(), last_date()),
{
}

/// The lines are those of a report on the shopping list of the meals from
/// `start` to `end`.
pub open spec fn is_report(
    lines: Seq<ReportLine>,
    camp: Camp,
    start: Date,
    end: Date,
    meals: Seq<ScheduledMeal>,
    recipes: Seq<RecipeWithIngredients>,
    ingredients: Seq<Ingredient>,
    categories: Seq<Category>,
) -> bool {
    exists|items: Seq<ShoppingListItem>|
        is_shopping_list(
            items,
            contributions(camp, meals, recipes, start, end),
            ingredients,
            categories,
        ) && lines == #[trigger] report_lines_of(items)
}

/// The ingredient report of one day of a camp: the shopping list of the
/// meals of that day under the headings of the categories. The errors are
/// those of the shopping list.
pub fn generate_daily_report(
    camp: &Camp,
    date: Date,
    meals: &Vec<ScheduledMeal>,
    recipes: &Vec<RecipeWithIngredients>,
    ingredients: &Vec<Ingredient>,
    categories: &Vec<Category>,
) -> (r: Result<Vec<ReportLine>, ReportError>)
    requires
        camp.wf(),
        meals_wf(meals@),
        recipes_wf(recipes@),
    ensures
        match r {
            Ok(lines) => is_report(
                lines@,
                *camp,
                date,
                date,
                meals@,
                recipes@,
                ingredients@,
                categories@,
            ),
            Err(ReportError::NotFound) => !references_resolve(
                meals@,
                recipes@,
                ingredients@,
                categories@,
                date,
                date,
            ),
            Err(ReportError::Overflow) => references_resolve(
                meals@,
                recipes@,
                ingredients@,
                categories@,
                date,
                date,
            ) && !totals_fit(contributions(*camp, meals@, recipes@, date, date)),
        },
{
    match generate_shopping_list(camp, date, date, meals, recipes, ingredients, categories) {
        Ok(items) => Ok(report_lines(&items)),
        Err(e) => Err(e),
    }
}

/// The ingredient report of a whole camp: the shopping list of all its
/// meals, whatever their dates, under the headings of the categories. The
/// errors are those of the shopping list.
pub fn generate_camp_report(
    camp: &Camp,
    meals: &Vec<ScheduledMeal>,
    recipes: &Vec<RecipeWithIngredients>,
    ingredients: &Vec<Ingredient>,
    categories: &Vec<Category>,
) -> (r: Result<Vec<ReportLine>, ReportError>)
    requires
        camp.wf(),
        meals_wf(meals@),
        recipes_wf(recipes@),
    ensures
        match r {
            Ok(lines) => is_report(
                lines@,
                *camp,
                first_date(),
                last_date(),
                meals@,
                recipes@,
                ingredients@,
                categories@,
            ),
            Err(ReportError::NotFound) => !references_resolve(
                meals@,
                recipes@,
                ingredients@,
                categories@,
                first_date(),
                last_date(),
            ),
            Err(ReportError::Overflow) => references_resolve(
                meals@,
                recipes@,
                ingredients@,
                categories@,
                first_date(),
                last_date(),
            ) && !totals_fit(
                contributions(*camp, meals@, recipes@, first_date(), last_date()),
            ),
        },
{
    let start = Date { year: i32::MIN, month: 1, day: 1 };
    let end = Date { year: i32::MAX, month: 12, day: 31 };
    match generate_shopping_list(camp, start, end, meals, recipes, ingredients, categories) {
        Ok(items) => Ok(report_lines(&items)),
        Err(e) => Err(e),
    }
}

} // verus!
