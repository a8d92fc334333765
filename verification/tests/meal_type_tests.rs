use meal_planning::meal_type::MealType;

#[test]
fn meal_type_names_round_trip() {
    let all = [
        MealType::Breakfast,
        MealType::MorningSnack,
        MealType::Lunch,
        MealType::AfternoonSnack,
        MealType::Dinner,
    ];
    for t in all {
        assert_eq!(MealType::from_str(t.as_str()), Some(t));
    }
}

#[test]
fn meal_type_unknown_name_is_none() {
    assert_eq!(MealType::from_str("supper"), None);
    assert_eq!(MealType::from_str(""), None);
    assert_eq!(MealType::from_str("Breakfast"), None);
}

#[test]
fn meal_type_sort_order_follows_the_day() {
    assert_eq!(MealType::Breakfast.sort_order(), 1);
    assert_eq!(MealType::MorningSnack.sort_order(), 2);
    assert_eq!(MealType::Lunch.sort_order(), 3);
    assert_eq!(MealType::AfternoonSnack.sort_order(), 4);
    assert_eq!(MealType::Dinner.sort_order(), 5);
}

#[test]
fn meal_type_names_are_the_stored_ones() {
    assert_eq!(MealType::Breakfast.as_str(), "breakfast");
    assert_eq!(MealType::MorningSnack.as_str(), "morning_snack");
    assert_eq!(MealType::Lunch.as_str(), "lunch");
    assert_eq!(MealType::AfternoonSnack.as_str(), "afternoon_snack");
    assert_eq!(MealType::Dinner.as_str(), "dinner");
}
