use meal_planning::camp::Camp;
use meal_planning::catalog::{
    check_category_unused, find_category, find_ingredient, Category, CreateCategory,
    CreateIngredient, Ingredient, UpdateCategory, UpdateIngredient,
};
use meal_planning::date::Date;
use meal_planning::meal_plan::{
    HeadCounts, MealAttendance, PlannedMeal, PlannedMealWithDetails, ScheduledMeal,
};
use meal_planning::meal_type::MealType;
use meal_planning::ratio::{Ratio, LIMIT};
use meal_planning::recipe::{Recipe, RecipeIngredient, RecipeIngredientDetail, RecipeWithIngredients};
use meal_planning::contributions::{collect_contributions, scale_recipe, Contribution};
use meal_planning::references::{check_inputs, check_references, find_recipe};
use meal_planning::shopping::{generate_shopping_list, ReportError, ShoppingListItem};
use meal_planning::totals::{accumulate, Group};

fn date(y: i32, m: u32, d: u32) -> Date {
    Date::new(y, m, d).unwrap()
}

fn ratio(n: i64, d: i64) -> Ratio {
    Ratio::new(n, d).unwrap()
}

fn camp() -> Camp {
    Camp {
        id: 1,
        name: "Summer".to_string(),
        start_date: date(2024, 7, 1),
        end_date: date(2024, 7, 14),
        default_children: 10,
        default_teens: 4,
        default_adults: 2,
        notes: None,
    }
}

fn categories() -> Vec<Category> {
    vec![
        Category { id: 1, name: "Vegetables".to_string(), sort_order: 20 },
        Category { id: 2, name: "Baking Goods".to_string(), sort_order: 10 },
        Category { id: 3, name: "Other".to_string(), sort_order: 30 },
    ]
}

fn ingredient(id: i64, name: &str, category_id: i64) -> Ingredient {
    Ingredient {
        id,
        name: name.to_string(),
        category_id,
        primary_unit: "g".to_string(),
        secondary_unit: None,
    }
}

fn ingredients() -> Vec<Ingredient> {
    vec![
        ingredient(1, "carrot", 1),
        ingredient(2, "flour", 2),
        ingredient(3, "salt", 3),
        ingredient(4, "Onion", 1),
        ingredient(5, "bread", 2),
    ]
}

fn line(ingredient_id: i64, name: &str, quantity: Ratio, unit: &str) -> RecipeIngredientDetail {
    RecipeIngredientDetail {
        recipe_ingredient: RecipeIngredient {
            id: ingredient_id + 1000,
            recipe_id: 0,
            ingredient_id,
            base_quantity: quantity,
            unit: unit.to_string(),
            child_multiplier: None,
            teen_multiplier: None,
            adult_multiplier: None,
            notes: None,
        },
        ingredient_name: name.to_string(),
    }
}

fn recipe(id: i64, name: &str, base_servings: i32, ingredients: Vec<RecipeIngredientDetail>) -> RecipeWithIngredients {
    RecipeWithIngredients {
        recipe: Recipe { id, name: name.to_string(), instructions: None, base_servings },
        ingredients,
    }
}

fn recipes() -> Vec<RecipeWithIngredients> {
    vec![
        recipe(
            10,
            "Soup",
            10,
            vec![
                line(1, "carrot", ratio(500, 1), "g"),
                line(3, "salt", ratio(10, 1), "g"),
                line(4, "Onion", ratio(2, 1), "pcs"),
            ],
        ),
        recipe(
            11,
            "Bread",
            4,
            vec![line(2, "flour", ratio(1, 1), "kg"), line(3, "salt", ratio(5, 1), "g")],
        ),
        recipe(12, "Salad", 2, vec![line(1, "carrot", ratio(1, 4), "kg"), line(1, "carrot", ratio(100, 1), "g")]),
    ]
}

fn meal(id: i64, day: u32, meal_type: MealType, recipe_id: i64, attendance: Option<(i32, i32, i32)>) -> ScheduledMeal {
    ScheduledMeal {
        date: date(2024, 7, day),
        meal: PlannedMealWithDetails {
            planned_meal: PlannedMeal { id, meal_plan_id: day as i64, recipe_id, meal_type },
            recipe_name: "".to_string(),
            attendance: attendance.map(|(children, teens, adults)| MealAttendance {
                id: id + 100,
                planned_meal_id: id,
                children,
                teens,
                adults,
            }),
        },
    }
}

fn item(id: i64, name: &str, category: &str, total: Ratio, unit: &str) -> ShoppingListItem {
    ShoppingListItem {
        ingredient_id: id,
        ingredient_name: name.to_string(),
        category_name: category.to_string(),
        total_quantity: total,
        unit: unit.to_string(),
    }
}

fn whole_camp(meals: &Vec<ScheduledMeal>) -> Result<Vec<ShoppingListItem>, ReportError> {
    generate_shopping_list(
        &camp(),
        date(2024, 7, 1),
        date(2024, 7, 14),
        meals,
        &recipes(),
        &ingredients(),
        &categories(),
    )
}

#[test]
fn shopping_list_sums_by_ingredient_and_unit() {
    // defaults: 10 children, 4 teens, 2 adults -> weighted 10/2 + 4*3/4 + 2 = 10 people
    // soup for 10: carrot 500 g, salt 10 g, onion 2 pcs
    // bread, attendance (0, 0, 8), for 4: flour 2 kg, salt 10 g
    let meals = vec![
        meal(1, 1, MealType::Lunch, 10, None),
        meal(2, 1, MealType::Dinner, 11, Some((0, 0, 8))),
    ];
    let expected = vec![
        item(2, "flour", "Baking Goods", ratio(2, 1), "kg"),
        item(4, "Onion", "Vegetables", ratio(2, 1), "pcs"),
        item(1, "carrot", "Vegetables", ratio(500, 1), "g"),
        item(3, "salt", "Other", ratio(20, 1), "g"),
    ];
    assert_eq!(whole_camp(&meals), Ok(expected));
}

#[test]
fn shopping_list_keeps_units_apart() {
    // salad for 2, attendance (0, 0, 4): carrot 1/2 kg and carrot 200 g
    // soup for 10, attendance (0, 0, 5): carrot 250 g
    let meals = vec![
        meal(1, 1, MealType::Lunch, 12, Some((0, 0, 4))),
        meal(2, 2, MealType::Lunch, 10, Some((0, 0, 5))),
    ];
    let list = whole_camp(&meals).unwrap();
    let carrots: Vec<(&str, Ratio)> = list
        .iter()
        .filter(|i| i.ingredient_id == 1)
        .map(|i| (i.unit.as_str(), i.total_quantity))
        .collect();
    assert_eq!(carrots, vec![("g", ratio(450, 1)), ("kg", ratio(1, 2))]);
}

#[test]
fn shopping_list_total_does_not_depend_on_the_order_of_meals() {
    let meals = vec![
        meal(1, 1, MealType::Lunch, 10, None),
        meal(2, 1, MealType::Dinner, 11, Some((1, 2, 3))),
        meal(3, 2, MealType::Lunch, 12, Some((7, 0, 1))),
        meal(4, 3, MealType::Lunch, 10, Some((0, 3, 3))),
    ];
    let forward = whole_camp(&meals).unwrap();
    let mut reversed = meals.clone();
    reversed.reverse();
    let backward = whole_camp(&reversed).unwrap();
    assert_eq!(forward.len(), backward.len());
    for item in &forward {
        let other = backward
            .iter()
            .find(|o| o.ingredient_id == item.ingredient_id && o.unit == item.unit)
            .unwrap();
        assert_eq!(item.total_quantity, other.total_quantity);
    }
}

#[test]
fn shopping_list_includes_zero_quantities() {
    let meals = vec![meal(1, 1, MealType::Lunch, 11, Some((0, 0, 0)))];
    let expected = vec![
        item(2, "flour", "Baking Goods", Ratio::zero(), "kg"),
        item(3, "salt", "Other", Ratio::zero(), "g"),
    ];
    assert_eq!(whole_camp(&meals), Ok(expected));
}

#[test]
fn shopping_list_takes_only_the_meals_in_the_date_range() {
    let meals = vec![
        meal(1, 1, MealType::Lunch, 11, Some((0, 0, 4))),
        meal(2, 2, MealType::Lunch, 11, Some((0, 0, 4))),
        meal(3, 3, MealType::Lunch, 11, Some((0, 0, 4))),
        meal(4, 4, MealType::Lunch, 99, None),
    ];
    let list = generate_shopping_list(
        &camp(),
        date(2024, 7, 2),
        date(2024, 7, 3),
        &meals,
        &recipes(),
        &ingredients(),
        &categories(),
    )
    .unwrap();
    assert_eq!(
        list,
        vec![
            item(2, "flour", "Baking Goods", ratio(2, 1), "kg"),
            item(3, "salt", "Other", ratio(10, 1), "g"),
        ]
    );
}

#[test]
fn shopping_list_orders_equal_names_by_id_and_unit() {
    let twins = vec![
        ingredient(8, "salt", 3),
        ingredient(3, "salt", 3),
    ];
    let both = vec![recipe(
        10,
        "Brine",
        1,
        vec![
            line(8, "salt", ratio(1, 1), "kg"),
            line(8, "salt", ratio(1, 1), "g"),
            line(3, "salt", ratio(2, 1), "kg"),
        ],
    )];
    let meals = vec![meal(1, 1, MealType::Lunch, 10, Some((0, 0, 1)))];
    let list = generate_shopping_list(
        &camp(),
        date(2024, 7, 1),
        date(2024, 7, 14),
        &meals,
        &both,
        &twins,
        &categories(),
    )
    .unwrap();
    let places: Vec<(i64, &str)> = list.iter().map(|i| (i.ingredient_id, i.unit.as_str())).collect();
    assert_eq!(places, vec![(3, "kg"), (8, "g"), (8, "kg")]);
}

#[test]
fn inputs_are_checked_before_a_report() {
    let meals = vec![meal(1, 1, MealType::Lunch, 10, Some((1, 2, 3)))];
    assert!(check_inputs(&camp(), &meals, &recipes()));
    let bad_camp = Camp { default_teens: -1, ..camp() };
    assert!(!check_inputs(&bad_camp, &meals, &recipes()));
    let backwards = Camp { end_date: date(2024, 6, 1), ..camp() };
    assert!(!check_inputs(&backwards, &meals, &recipes()));
    let bad_meals = vec![meal(1, 1, MealType::Lunch, 10, Some((1, -2, 3)))];
    assert!(!check_inputs(&camp(), &bad_meals, &recipes()));
    let no_servings = vec![recipe(10, "Soup", 0, vec![])];
    assert!(!check_inputs(&camp(), &meals, &no_servings));
    let no_quantity = vec![recipe(10, "Soup", 1, vec![line(1, "carrot", Ratio::zero(), "g")])];
    assert!(!check_inputs(&camp(), &meals, &no_quantity));
    let mut negative = line(1, "carrot", ratio(1, 1), "g");
    negative.recipe_ingredient.teen_multiplier = Some(ratio(-1, 2));
    assert!(!check_inputs(&camp(), &meals, &vec![recipe(10, "Soup", 1, vec![negative])]));
    let mut malformed = line(1, "carrot", ratio(1, 1), "g");
    malformed.recipe_ingredient.adult_multiplier = Some(Ratio { num: 1, den: 0 });
    assert!(!check_inputs(&camp(), &meals, &vec![recipe(10, "Soup", 1, vec![malformed])]));
}

#[test]
fn shopping_list_of_no_meals_is_empty() {
    assert_eq!(whole_camp(&vec![]), Ok(vec![]));
}

#[test]
fn shopping_list_is_grouped_by_category_sort_order() {
    let meals = vec![
        meal(1, 1, MealType::Lunch, 10, None),
        meal(2, 1, MealType::Dinner, 11, None),
        meal(3, 2, MealType::Lunch, 12, None),
    ];
    let list = whole_camp(&meals).unwrap();
    let categories: Vec<&str> = list.iter().map(|i| i.category_name.as_str()).collect();
    assert_eq!(
        categories,
        vec!["Baking Goods", "Vegetables", "Vegetables", "Vegetables", "Other"]
    );
    // within a category by name, upper case before lower case
    let names: Vec<&str> = list.iter().map(|i| i.ingredient_name.as_str()).collect();
    assert_eq!(names, vec!["flour", "Onion", "carrot", "carrot", "salt"]);
}

#[test]
fn shopping_list_reports_a_missing_recipe() {
    let meals = vec![meal(1, 1, MealType::Lunch, 10, None), meal(2, 1, MealType::Dinner, 99, None)];
    assert_eq!(whole_camp(&meals), Err(ReportError::NotFound));
}

#[test]
fn shopping_list_reports_a_missing_ingredient_or_category() {
    let meals = vec![meal(1, 1, MealType::Lunch, 10, None)];
    let fewer: Vec<Ingredient> = ingredients().into_iter().filter(|i| i.id != 3).collect();
    assert_eq!(
        generate_shopping_list(&camp(), date(2024, 7, 1), date(2024, 7, 14), &meals, &recipes(), &fewer, &categories()),
        Err(ReportError::NotFound)
    );
    let fewer_categories: Vec<Category> = categories().into_iter().filter(|c| c.id != 3).collect();
    assert_eq!(
        generate_shopping_list(&camp(), date(2024, 7, 1), date(2024, 7, 14), &meals, &recipes(), &ingredients(), &fewer_categories),
        Err(ReportError::NotFound)
    );
}

#[test]
fn shopping_list_reports_overflow() {
    let big = vec![recipe(10, "Big", 1, vec![line(1, "carrot", ratio(LIMIT, 1), "g")])];
    let meals = vec![
        meal(1, 1, MealType::Lunch, 10, Some((0, 0, 1))),
        meal(2, 2, MealType::Lunch, 10, Some((0, 0, 1))),
    ];
    assert_eq!(
        generate_shopping_list(&camp(), date(2024, 7, 1), date(2024, 7, 14), &meals, &big, &ingredients(), &categories()),
        Err(ReportError::Overflow)
    );
    // a missing reference is reported before an overflow
    let mixed = vec![
        meal(1, 1, MealType::Lunch, 10, Some((0, 0, 2))),
        meal(2, 2, MealType::Lunch, 99, None),
    ];
    assert_eq!(
        generate_shopping_list(&camp(), date(2024, 7, 1), date(2024, 7, 14), &mixed, &big, &ingredients(), &categories()),
        Err(ReportError::NotFound)
    );
}

#[test]
fn contributions_follow_meals_and_lines() {
    let meals = vec![
        meal(1, 1, MealType::Lunch, 11, Some((0, 0, 4))),
        meal(2, 1, MealType::Dinner, 99, None),
        meal(3, 2, MealType::Lunch, 12, Some((0, 0, 2))),
    ];
    let lines = collect_contributions(&camp(), &meals, &recipes(), date(2024, 7, 1), date(2024, 7, 14));
    let expected = vec![
        Contribution { ingredient_id: 2, unit: "kg".to_string(), quantity: Some(ratio(1, 1)) },
        Contribution { ingredient_id: 3, unit: "g".to_string(), quantity: Some(ratio(5, 1)) },
        Contribution { ingredient_id: 1, unit: "kg".to_string(), quantity: Some(ratio(1, 4)) },
        Contribution { ingredient_id: 1, unit: "g".to_string(), quantity: Some(ratio(100, 1)) },
    ];
    assert_eq!(lines, expected);
    assert!(!check_references(&meals, &recipes(), &ingredients(), &categories(), date(2024, 7, 1), date(2024, 7, 14)));
    assert!(check_references(&meals, &recipes(), &ingredients(), &categories(), date(2024, 7, 2), date(2024, 7, 14)));
}

#[test]
fn scale_recipe_scales_every_line() {
    let scaled = scale_recipe(&recipes()[0], HeadCounts { children: 0, teens: 0, adults: 20 });
    let quantities: Vec<Option<Ratio>> = scaled.iter().map(|c| c.quantity).collect();
    assert_eq!(quantities, vec![Some(ratio(1000, 1)), Some(ratio(20, 1)), Some(ratio(4, 1))]);
}

#[test]
fn accumulate_groups_in_order_of_first_occurrence() {
    let lines = vec![
        Contribution { ingredient_id: 2, unit: "kg".to_string(), quantity: Some(ratio(1, 3)) },
        Contribution { ingredient_id: 1, unit: "g".to_string(), quantity: Some(ratio(1, 2)) },
        Contribution { ingredient_id: 2, unit: "kg".to_string(), quantity: Some(ratio(2, 3)) },
        Contribution { ingredient_id: 2, unit: "g".to_string(), quantity: Some(ratio(7, 1)) },
    ];
    let groups = accumulate(&lines).unwrap();
    assert_eq!(
        groups,
        vec![
            Group { ingredient_id: 2, unit: "kg".to_string(), total: ratio(1, 1) },
            Group { ingredient_id: 1, unit: "g".to_string(), total: ratio(1, 2) },
            Group { ingredient_id: 2, unit: "g".to_string(), total: ratio(7, 1) },
        ]
    );
    let missing = vec![Contribution { ingredient_id: 2, unit: "kg".to_string(), quantity: None }];
    assert_eq!(accumulate(&missing), None);
}

#[test]
fn catalog_lookups_find_the_first_match() {
    assert_eq!(find_category(&categories(), 2), Some(1));
    assert_eq!(find_category(&categories(), 9), None);
    assert_eq!(find_ingredient(&ingredients(), 4), Some(3));
    assert_eq!(find_ingredient(&ingredients(), 40), None);
    assert_eq!(find_recipe(&recipes(), 12), Some(2));
    assert_eq!(find_recipe(&recipes(), 13), None);
}

#[test]
fn category_in_use_cannot_be_deleted() {
    assert_eq!(check_category_unused(&ingredients(), 1), Err(2));
    assert_eq!(check_category_unused(&ingredients(), 3), Err(1));
    assert_eq!(check_category_unused(&ingredients(), 7), Ok(()));
    assert_eq!(check_category_unused(&vec![], 1), Ok(()));
}

#[test]
fn catalog_updates_merge() {
    let category = CreateCategory { name: "Dairy".to_string(), sort_order: 5 }.into_category(8);
    assert_eq!(category, Category { id: 8, name: "Dairy".to_string(), sort_order: 5 });
    let moved = UpdateCategory { name: None, sort_order: Some(6) }.apply(category.clone());
    assert_eq!(moved, Category { id: 8, name: "Dairy".to_string(), sort_order: 6 });
    let renamed = UpdateCategory { name: Some("Milk".to_string()), sort_order: None }.apply(category);
    assert_eq!(renamed, Category { id: 8, name: "Milk".to_string(), sort_order: 5 });

    let created = CreateIngredient {
        name: "milk".to_string(),
        category_id: 8,
        primary_unit: "l".to_string(),
        secondary_unit: Some("ml".to_string()),
    }
    .into_ingredient(3);
    assert_eq!(created.id, 3);
    assert_eq!(created.secondary_unit, Some("ml".to_string()));
    let updated = UpdateIngredient {
        name: None,
        category_id: Some(9),
        primary_unit: Some("dl".to_string()),
        secondary_unit: None,
    }
    .apply(created);
    assert_eq!(updated.name, "milk");
    assert_eq!(updated.category_id, 9);
    assert_eq!(updated.primary_unit, "dl");
    assert_eq!(updated.secondary_unit, Some("ml".to_string()));
}
