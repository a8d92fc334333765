use meal_planning::camp::{Camp, CreateCamp, UpdateCamp};
use meal_planning::date::Date;
use meal_planning::meal_plan::{
    create_or_update_attendance, get_meal_plan, get_or_create_meal_plan, CreateAttendance,
    CreatePlannedMeal, MealAttendance, MealPlan, PlannedMeal, PlannedMealWithDetails,
    UpdatePlannedMeal,
};
use meal_planning::meal_type::MealType;
use meal_planning::ratio::Ratio;
use meal_planning::recipe::{
    CreateRecipe, CreateRecipeIngredient, Recipe, UpdateRecipe,
};
use meal_planning::validation::{check_counts, ValidationError};

fn date(y: i32, m: u32, d: u32) -> Date {
    Date::new(y, m, d).unwrap()
}

fn ratio(n: i64, d: i64) -> Ratio {
    Ratio::new(n, d).unwrap()
}

fn new_camp(start: Date, end: Date, c: i32, t: i32, a: i32) -> CreateCamp {
    CreateCamp {
        name: "Summer".to_string(),
        start_date: start,
        end_date: end,
        default_children: c,
        default_teens: t,
        default_adults: a,
        notes: None,
    }
}

fn stored_camp() -> Camp {
    Camp {
        id: 3,
        name: "Summer".to_string(),
        start_date: date(2024, 7, 1),
        end_date: date(2024, 7, 14),
        default_children: 10,
        default_teens: 5,
        default_adults: 4,
        notes: Some("bring tents".to_string()),
    }
}

fn new_line(quantity: Ratio, child: Option<Ratio>, teen: Option<Ratio>, adult: Option<Ratio>) -> CreateRecipeIngredient {
    CreateRecipeIngredient {
        ingredient_id: 1,
        base_quantity: quantity,
        unit: "g".to_string(),
        child_multiplier: child,
        teen_multiplier: teen,
        adult_multiplier: adult,
        notes: None,
    }
}

#[test]
fn camp_must_end_after_it_starts() {
    let same_day = new_camp(date(2024, 7, 1), date(2024, 7, 1), 1, 1, 1);
    assert_eq!(same_day.validate(), Err(ValidationError::EndDateNotAfterStart));
    let backwards = new_camp(date(2024, 7, 2), date(2024, 7, 1), 1, 1, 1);
    assert_eq!(backwards.validate(), Err(ValidationError::EndDateNotAfterStart));
    let one_day = new_camp(date(2024, 7, 1), date(2024, 7, 2), 0, 0, 0);
    assert_eq!(one_day.validate(), Ok(()));
    let over_new_year = new_camp(date(2024, 12, 31), date(2025, 1, 1), 0, 0, 0);
    assert_eq!(over_new_year.validate(), Ok(()));
}

#[test]
fn camp_counts_must_not_be_negative() {
    let start = date(2024, 7, 1);
    let end = date(2024, 7, 5);
    assert_eq!(new_camp(start, end, -1, 0, 0).validate(), Err(ValidationError::NegativeChildren));
    assert_eq!(new_camp(start, end, 0, -1, 0).validate(), Err(ValidationError::NegativeTeens));
    assert_eq!(new_camp(start, end, 0, 0, -1).validate(), Err(ValidationError::NegativeAdults));
    assert_eq!(new_camp(start, end, -1, -1, -1).validate(), Err(ValidationError::NegativeChildren));
    // the dates are checked before the counts
    assert_eq!(new_camp(end, start, -1, 0, 0).validate(), Err(ValidationError::EndDateNotAfterStart));
}

#[test]
fn camp_into_camp_keeps_the_data() {
    let camp = new_camp(date(2024, 7, 1), date(2024, 7, 5), 3, 2, 1).into_camp(9).unwrap();
    assert_eq!(camp.id, 9);
    assert_eq!(camp.name, "Summer");
    assert_eq!(camp.start_date, date(2024, 7, 1));
    assert_eq!(camp.end_date, date(2024, 7, 5));
    assert_eq!((camp.default_children, camp.default_teens, camp.default_adults), (3, 2, 1));
    assert_eq!(
        new_camp(date(2024, 7, 5), date(2024, 7, 1), 3, 2, 1).into_camp(9),
        Err(ValidationError::EndDateNotAfterStart)
    );
}

#[test]
fn camp_update_merges_and_validates() {
    let update = UpdateCamp {
        name: Some("Autumn".to_string()),
        start_date: None,
        end_date: Some(date(2024, 7, 20)),
        default_children: None,
        default_teens: Some(7),
        default_adults: None,
        notes: None,
    };
    let camp = update.apply(stored_camp()).unwrap();
    assert_eq!(camp.id, 3);
    assert_eq!(camp.name, "Autumn");
    assert_eq!(camp.start_date, date(2024, 7, 1));
    assert_eq!(camp.end_date, date(2024, 7, 20));
    assert_eq!((camp.default_children, camp.default_teens, camp.default_adults), (10, 7, 4));
    assert_eq!(camp.notes, Some("bring tents".to_string()));
}

#[test]
fn camp_update_is_rejected_on_the_merged_values() {
    let update = UpdateCamp {
        name: None,
        start_date: Some(date(2024, 7, 14)),
        end_date: None,
        default_children: None,
        default_teens: None,
        default_adults: None,
        notes: None,
    };
    assert_eq!(update.apply(stored_camp()), Err(ValidationError::EndDateNotAfterStart));
    let negative = UpdateCamp {
        name: None,
        start_date: None,
        end_date: None,
        default_children: None,
        default_teens: None,
        default_adults: Some(-2),
        notes: None,
    };
    assert_eq!(negative.apply(stored_camp()), Err(ValidationError::NegativeAdults));
}

#[test]
fn validation_messages_are_the_user_texts() {
    assert_eq!(ValidationError::EndDateNotAfterStart.message(), "End date must be after start date");
    assert_eq!(ValidationError::NegativeChildren.message(), "Number of children cannot be negative");
    assert_eq!(ValidationError::NegativeTeens.message(), "Number of teens cannot be negative");
    assert_eq!(ValidationError::NegativeAdults.message(), "Number of adults cannot be negative");
    assert_eq!(ValidationError::NonPositiveServings.message(), "Base servings must be greater than 0");
    assert_eq!(
        ValidationError::NonPositiveQuantity.message(),
        "All ingredient quantities must be greater than 0"
    );
    assert_eq!(ValidationError::NegativeMultiplier.message(), "Multipliers cannot be negative");
}

#[test]
fn check_counts_names_the_first_negative_count() {
    assert_eq!(check_counts(0, 0, 0), Ok(()));
    assert_eq!(check_counts(5, -1, -1), Err(ValidationError::NegativeTeens));
    assert_eq!(check_counts(i32::MIN, 0, 0), Err(ValidationError::NegativeChildren));
}

#[test]
fn recipe_needs_positive_base_servings() {
    let recipe = CreateRecipe {
        name: "Soup".to_string(),
        instructions: None,
        base_servings: 0,
        ingredients: vec![new_line(ratio(-1, 1), None, None, None)],
    };
    assert_eq!(recipe.validate(), Err(ValidationError::NonPositiveServings));
    let negative = CreateRecipe { base_servings: -4, ..recipe };
    assert_eq!(negative.validate(), Err(ValidationError::NonPositiveServings));
}

#[test]
fn recipe_lines_need_positive_quantities_and_no_negative_multiplier() {
    let good = new_line(ratio(1, 2), Some(Ratio::zero()), None, Some(ratio(3, 2)));
    assert_eq!(good.validate(), Ok(()));
    assert_eq!(new_line(Ratio::zero(), None, None, None).validate(), Err(ValidationError::NonPositiveQuantity));
    assert_eq!(new_line(ratio(-1, 2), None, None, None).validate(), Err(ValidationError::NonPositiveQuantity));
    assert_eq!(
        new_line(ratio(1, 2), Some(ratio(-1, 10)), None, None).validate(),
        Err(ValidationError::NegativeMultiplier)
    );
    assert_eq!(
        new_line(ratio(1, 2), None, Some(ratio(-1, 10)), None).validate(),
        Err(ValidationError::NegativeMultiplier)
    );
    assert_eq!(
        new_line(ratio(1, 2), None, None, Some(ratio(-1, 10))).validate(),
        Err(ValidationError::NegativeMultiplier)
    );
    // the quantity is checked before the multipliers
    assert_eq!(
        new_line(Ratio::zero(), Some(ratio(-1, 10)), None, None).validate(),
        Err(ValidationError::NonPositiveQuantity)
    );
}

#[test]
fn recipe_reports_the_first_bad_line() {
    let recipe = CreateRecipe {
        name: "Soup".to_string(),
        instructions: None,
        base_servings: 4,
        ingredients: vec![
            new_line(ratio(1, 1), None, None, None),
            new_line(ratio(1, 1), None, Some(ratio(-1, 1)), None),
            new_line(Ratio::zero(), None, None, None),
        ],
    };
    assert_eq!(recipe.validate(), Err(ValidationError::NegativeMultiplier));
    let empty = CreateRecipe {
        name: "Nothing".to_string(),
        instructions: None,
        base_servings: 1,
        ingredients: vec![],
    };
    assert_eq!(empty.validate(), Ok(()));
}

#[test]
fn stored_line_gets_the_default_multipliers() {
    let stored = new_line(ratio(5, 1), None, Some(ratio(2, 1)), None).into_stored(11, 22);
    assert_eq!(stored.id, 11);
    assert_eq!(stored.recipe_id, 22);
    assert_eq!(stored.base_quantity, ratio(5, 1));
    assert_eq!(stored.child_multiplier, Some(ratio(1, 2)));
    assert_eq!(stored.teen_multiplier, Some(ratio(2, 1)));
    assert_eq!(stored.adult_multiplier, Some(ratio(1, 1)));
}

#[test]
fn recipe_update_merges_and_validates() {
    let existing = Recipe {
        id: 5,
        name: "Soup".to_string(),
        instructions: Some("boil".to_string()),
        base_servings: 4,
    };
    let rename = UpdateRecipe {
        name: Some("Stew".to_string()),
        instructions: None,
        base_servings: None,
        ingredients: None,
    };
    let (recipe, lines) = rename.apply(existing.clone()).unwrap();
    assert_eq!(recipe.id, 5);
    assert_eq!(recipe.name, "Stew");
    assert_eq!(recipe.instructions, Some("boil".to_string()));
    assert_eq!(recipe.base_servings, 4);
    assert_eq!(lines, None);

    let zero_servings = UpdateRecipe {
        name: None,
        instructions: None,
        base_servings: Some(0),
        ingredients: None,
    };
    assert_eq!(zero_servings.apply(existing.clone()), Err(ValidationError::NonPositiveServings));

    let bad_lines = UpdateRecipe {
        name: None,
        instructions: None,
        base_servings: Some(8),
        ingredients: Some(vec![new_line(Ratio::zero(), None, None, None)]),
    };
    assert_eq!(bad_lines.apply(existing.clone()), Err(ValidationError::NonPositiveQuantity));

    let new_lines = UpdateRecipe {
        name: None,
        instructions: Some("simmer".to_string()),
        base_servings: Some(8),
        ingredients: Some(vec![new_line(ratio(2, 1), None, None, None)]),
    };
    let (recipe, lines) = new_lines.apply(existing).unwrap();
    assert_eq!(recipe.base_servings, 8);
    assert_eq!(recipe.instructions, Some("simmer".to_string()));
    assert_eq!(lines, Some(vec![new_line(ratio(2, 1), None, None, None)]));
}

#[test]
fn attendance_is_validated_on_every_path() {
    assert_eq!(CreateAttendance::new(1, 2, 3), Ok(CreateAttendance { children: 1, teens: 2, adults: 3 }));
    assert_eq!(CreateAttendance::new(-1, 2, 3), Err(ValidationError::NegativeChildren));
    assert_eq!(CreateAttendance::new(1, -2, 3), Err(ValidationError::NegativeTeens));
    assert_eq!(CreateAttendance::new(1, 2, -3), Err(ValidationError::NegativeAdults));
    let bad = CreateAttendance { children: 0, teens: 0, adults: -1 };
    let create = CreatePlannedMeal {
        camp_id: 1,
        date: date(2024, 7, 1),
        meal_type: MealType::Lunch,
        recipe_id: 2,
        attendance: Some(bad),
    };
    assert_eq!(create.validate(), Err(ValidationError::NegativeAdults));
    let without = CreatePlannedMeal { attendance: None, ..create };
    assert_eq!(without.validate(), Ok(()));
    assert_eq!(create_or_update_attendance(None, 4, 9, bad), Err(ValidationError::NegativeAdults));
}

#[test]
fn attendance_upsert_keeps_the_id_of_an_existing_record() {
    let counts = CreateAttendance { children: 1, teens: 2, adults: 3 };
    let fresh = create_or_update_attendance(None, 4, 9, counts).unwrap();
    assert_eq!(fresh, MealAttendance { id: 9, planned_meal_id: 4, children: 1, teens: 2, adults: 3 });
    let old = MealAttendance { id: 7, planned_meal_id: 4, children: 8, teens: 8, adults: 8 };
    let replaced = create_or_update_attendance(Some(old), 4, 9, counts).unwrap();
    assert_eq!(replaced, MealAttendance { id: 7, planned_meal_id: 4, children: 1, teens: 2, adults: 3 });
}

#[test]
fn planned_meal_update_changes_recipe_and_attendance() {
    let existing = PlannedMealWithDetails {
        planned_meal: PlannedMeal { id: 4, meal_plan_id: 2, recipe_id: 10, meal_type: MealType::Dinner },
        recipe_name: "Soup".to_string(),
        attendance: None,
    };
    let update = UpdatePlannedMeal {
        recipe_id: Some(11),
        attendance: Some(CreateAttendance { children: 1, teens: 2, adults: 3 }),
    };
    let meal = update.apply(existing.clone(), 50).unwrap();
    assert_eq!(meal.planned_meal, PlannedMeal { id: 4, meal_plan_id: 2, recipe_id: 11, meal_type: MealType::Dinner });
    assert_eq!(
        meal.attendance,
        Some(MealAttendance { id: 50, planned_meal_id: 4, children: 1, teens: 2, adults: 3 })
    );
    let nothing = UpdatePlannedMeal { recipe_id: None, attendance: None };
    assert_eq!(nothing.apply(existing.clone(), 50), Ok(existing.clone()));
    let bad = UpdatePlannedMeal {
        recipe_id: Some(11),
        attendance: Some(CreateAttendance { children: -1, teens: 2, adults: 3 }),
    };
    assert_eq!(bad.apply(existing, 50), Err(ValidationError::NegativeChildren));
}

#[test]
fn meal_plan_is_created_once_per_camp_and_date() {
    let mut plans: Vec<MealPlan> = Vec::new();
    assert_eq!(get_meal_plan(&plans, 1, date(2024, 7, 1)), None);
    assert_eq!(get_or_create_meal_plan(&mut plans, 1, date(2024, 7, 1), 100), 0);
    assert_eq!(get_or_create_meal_plan(&mut plans, 1, date(2024, 7, 2), 101), 1);
    assert_eq!(get_or_create_meal_plan(&mut plans, 2, date(2024, 7, 1), 102), 2);
    assert_eq!(get_or_create_meal_plan(&mut plans, 1, date(2024, 7, 1), 103), 0);
    assert_eq!(plans.len(), 3);
    assert_eq!(plans[0], MealPlan { id: 100, camp_id: 1, date: date(2024, 7, 1) });
    assert_eq!(get_meal_plan(&plans, 2, date(2024, 7, 1)), Some(2));
    assert_eq!(get_meal_plan(&plans, 2, date(2024, 7, 2)), None);
}
