use meal_planning::camp::Camp;
use meal_planning::date::Date;
use meal_planning::meal_plan::{
    HeadCounts, MealAttendance, PlannedMeal, PlannedMealWithDetails, ScheduledMeal,
};
use meal_planning::meal_type::MealType;
use meal_planning::schedule::{
    generate_attendance_summary, generate_meal_schedule, get_planned_meals_for_date_range,
    AttendanceSummary, MealScheduleItem,
};
use meal_planning::sorting::sort_by_key;

fn date(y: i32, m: u32, d: u32) -> Date {
    Date::new(y, m, d).unwrap()
}

fn camp() -> Camp {
    Camp {
        id: 1,
        name: "Summer".to_string(),
        start_date: date(2024, 7, 1),
        end_date: date(2024, 7, 14),
        default_children: 10,
        default_teens: 5,
        default_adults: 4,
        notes: None,
    }
}

fn meal(id: i64, day: u32, meal_type: MealType, recipe: &str, attendance: Option<(i32, i32, i32)>) -> ScheduledMeal {
    ScheduledMeal {
        date: date(2024, 7, day),
        meal: PlannedMealWithDetails {
            planned_meal: PlannedMeal { id, meal_plan_id: day as i64, recipe_id: id * 10, meal_type },
            recipe_name: recipe.to_string(),
            attendance: attendance.map(|(children, teens, adults)| MealAttendance {
                id: id + 100,
                planned_meal_id: id,
                children,
                teens,
                adults,
            }),
        },
    }
}

fn item(day: u32, meal_type: MealType, recipe: &str, c: i32, t: i32, a: i32) -> MealScheduleItem {
    MealScheduleItem {
        date: date(2024, 7, day),
        meal_type,
        recipe_name: recipe.to_string(),
        children: c,
        teens: t,
        adults: a,
    }
}

fn sample() -> Vec<ScheduledMeal> {
    vec![
        meal(1, 2, MealType::Dinner, "Goulash", None),
        meal(2, 1, MealType::Lunch, "Soup", Some((3, 2, 1))),
        meal(3, 2, MealType::Breakfast, "Porridge", None),
        meal(4, 1, MealType::AfternoonSnack, "Fruit", Some((0, 0, 0))),
        meal(5, 1, MealType::MorningSnack, "Bread", None),
    ]
}

fn expected_schedule() -> Vec<MealScheduleItem> {
    vec![
        item(1, MealType::MorningSnack, "Bread", 10, 5, 4),
        item(1, MealType::Lunch, "Soup", 3, 2, 1),
        item(1, MealType::AfternoonSnack, "Fruit", 0, 0, 0),
        item(2, MealType::Breakfast, "Porridge", 10, 5, 4),
        item(2, MealType::Dinner, "Goulash", 10, 5, 4),
    ]
}

#[test]
fn schedule_is_ordered_by_date_then_meal_of_the_day() {
    assert_eq!(generate_meal_schedule(&camp(), sample()), expected_schedule());
}

#[test]
fn schedule_does_not_depend_on_the_input_order() {
    let mut reversed = sample();
    reversed.reverse();
    assert_eq!(generate_meal_schedule(&camp(), reversed), expected_schedule());
    let mut rotated = sample();
    rotated.rotate_left(2);
    assert_eq!(generate_meal_schedule(&camp(), rotated), expected_schedule());
}

#[test]
fn schedule_of_no_meals_is_empty() {
    assert_eq!(generate_meal_schedule(&camp(), vec![]), vec![]);
    assert_eq!(generate_attendance_summary(&camp(), vec![]), vec![]);
}

#[test]
fn schedule_keeps_the_order_of_meals_in_the_same_slot() {
    let meals = vec![
        meal(1, 1, MealType::Lunch, "Soup", None),
        meal(2, 1, MealType::Breakfast, "Porridge", None),
        meal(3, 1, MealType::Lunch, "Bread", None),
    ];
    let schedule = generate_meal_schedule(&camp(), meals);
    let names: Vec<&str> = schedule.iter().map(|i| i.recipe_name.as_str()).collect();
    assert_eq!(names, vec!["Porridge", "Soup", "Bread"]);
}

#[test]
fn attendance_falls_back_to_the_camp_defaults() {
    let with_record = meal(1, 1, MealType::Lunch, "Soup", Some((3, 2, 1)));
    let without = meal(2, 1, MealType::Dinner, "Stew", None);
    assert_eq!(with_record.head_counts(&camp()), HeadCounts { children: 3, teens: 2, adults: 1 });
    assert_eq!(without.head_counts(&camp()), HeadCounts { children: 10, teens: 5, adults: 4 });
    // a record overrides every count, also with zero
    let zero = meal(3, 1, MealType::Dinner, "Stew", Some((0, 0, 0)));
    assert_eq!(zero.head_counts(&camp()), HeadCounts { children: 0, teens: 0, adults: 0 });
}

#[test]
fn attendance_summary_adds_up_the_head_counts() {
    let summary = generate_attendance_summary(&camp(), sample());
    let expected = vec![
        AttendanceSummary { date: date(2024, 7, 1), meal_type: MealType::MorningSnack, children: 10, teens: 5, adults: 4, total_people: 19 },
        AttendanceSummary { date: date(2024, 7, 1), meal_type: MealType::Lunch, children: 3, teens: 2, adults: 1, total_people: 6 },
        AttendanceSummary { date: date(2024, 7, 1), meal_type: MealType::AfternoonSnack, children: 0, teens: 0, adults: 0, total_people: 0 },
        AttendanceSummary { date: date(2024, 7, 2), meal_type: MealType::Breakfast, children: 10, teens: 5, adults: 4, total_people: 19 },
        AttendanceSummary { date: date(2024, 7, 2), meal_type: MealType::Dinner, children: 10, teens: 5, adults: 4, total_people: 19 },
    ];
    assert_eq!(summary, expected);
}

#[test]
fn attendance_summary_total_does_not_overflow() {
    let meals = vec![meal(1, 1, MealType::Lunch, "Soup", Some((i32::MAX, i32::MAX, i32::MAX)))];
    let summary = generate_attendance_summary(&camp(), meals);
    assert_eq!(summary[0].total_people, 3 * (i32::MAX as i64));
}

#[test]
fn meals_outside_the_camp_dates_are_listed_as_they_are() {
    let meals = vec![
        ScheduledMeal { date: date(2025, 1, 1), ..meal(1, 1, MealType::Lunch, "Late", None) },
        ScheduledMeal { date: date(2023, 1, 1), ..meal(2, 1, MealType::Lunch, "Early", None) },
    ];
    let schedule = generate_meal_schedule(&camp(), meals);
    assert_eq!(schedule.len(), 2);
    assert_eq!(schedule[0].recipe_name, "Early");
    assert_eq!(schedule[1].recipe_name, "Late");
}

#[test]
fn date_range_filter_keeps_the_order() {
    let kept = get_planned_meals_for_date_range(sample(), date(2024, 7, 1), date(2024, 7, 1));
    let names: Vec<&str> = kept.iter().map(|m| m.meal.recipe_name.as_str()).collect();
    assert_eq!(names, vec!["Soup", "Fruit", "Bread"]);
    let all = get_planned_meals_for_date_range(sample(), date(2024, 7, 1), date(2024, 7, 2));
    assert_eq!(all, sample());
    let none = get_planned_meals_for_date_range(sample(), date(2024, 7, 3), date(2024, 7, 9));
    assert_eq!(none, vec![]);
    let backwards = get_planned_meals_for_date_range(sample(), date(2024, 7, 2), date(2024, 7, 1));
    assert_eq!(backwards, vec![]);
}

#[test]
fn sort_by_key_is_stable() {
    let meals = vec![
        meal(1, 3, MealType::Lunch, "c", None),
        meal(2, 1, MealType::Lunch, "a1", None),
        meal(3, 2, MealType::Lunch, "b", None),
        meal(4, 1, MealType::Lunch, "a2", None),
        meal(5, 1, MealType::Breakfast, "a0", None),
    ];
    let sorted = sort_by_key(meals);
    let names: Vec<&str> = sorted.iter().map(|m| m.meal.recipe_name.as_str()).collect();
    assert_eq!(names, vec!["a0", "a1", "a2", "b", "c"]);
}
