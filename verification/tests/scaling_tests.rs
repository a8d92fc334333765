use meal_planning::ratio::{Ratio, LIMIT};
use meal_planning::recipe::RecipeIngredient;
use meal_planning::scaling::required_quantity;

fn ratio(n: i64, d: i64) -> Ratio {
    Ratio::new(n, d).unwrap()
}

fn line(base: Ratio, child: Option<Ratio>, teen: Option<Ratio>, adult: Option<Ratio>) -> RecipeIngredient {
    RecipeIngredient {
        id: 1,
        recipe_id: 1,
        ingredient_id: 7,
        base_quantity: base,
        unit: "g".to_string(),
        child_multiplier: child,
        teen_multiplier: teen,
        adult_multiplier: adult,
        notes: None,
    }
}

#[test]
fn required_quantity_follows_the_formula() {
    // 200 * (4 * 0.5 + 2 * 0.75 + 3 * 1) / 10 = 200 * 6.5 / 10 = 130
    let l = line(ratio(200, 1), None, None, None);
    assert_eq!(required_quantity(&l, 10, 4, 2, 3), Some(ratio(130, 1)));
}

#[test]
fn required_quantity_with_explicit_multipliers() {
    // 3/2 * (2 * 1/3 + 3 * 2/3 + 1 * 2) / 4 = 3/2 * 14/3 / 4 = 7/4
    let l = line(ratio(3, 2), Some(ratio(1, 3)), Some(ratio(2, 3)), Some(ratio(2, 1)));
    assert_eq!(required_quantity(&l, 4, 2, 3, 1), Some(ratio(7, 4)));
}

#[test]
fn required_quantity_is_zero_without_attendance() {
    let l = line(ratio(200, 1), Some(ratio(1, 3)), None, Some(ratio(9, 7)));
    assert_eq!(required_quantity(&l, 10, 0, 0, 0), Some(Ratio::zero()));
    let huge = line(ratio(LIMIT, LIMIT - 1), Some(ratio(1, LIMIT)), Some(ratio(1, LIMIT - 2)), Some(ratio(1, LIMIT - 4)));
    assert_eq!(required_quantity(&huge, i32::MAX, 0, 0, 0), Some(Ratio::zero()));
}

#[test]
fn required_quantity_is_zero_with_zero_multipliers() {
    let l = line(ratio(200, 1), Some(Ratio::zero()), Some(Ratio::zero()), Some(Ratio::zero()));
    assert_eq!(required_quantity(&l, 10, 5, 6, 7), Some(Ratio::zero()));
}

#[test]
fn unset_multipliers_behave_as_the_defaults() {
    let unset = line(ratio(125, 2), None, None, None);
    let explicit = line(ratio(125, 2), Some(ratio(1, 2)), Some(ratio(3, 4)), Some(ratio(1, 1)));
    for (c, t, a) in [(0, 0, 0), (1, 0, 0), (0, 1, 0), (0, 0, 1), (12, 7, 3), (100, 200, 300)] {
        assert_eq!(
            required_quantity(&unset, 8, c, t, a),
            required_quantity(&explicit, 8, c, t, a)
        );
    }
}

#[test]
fn doubling_the_attendance_doubles_the_quantity() {
    let l = line(ratio(7, 3), Some(ratio(2, 5)), None, Some(ratio(11, 10)));
    let once = required_quantity(&l, 6, 5, 4, 3).unwrap();
    let twice = required_quantity(&l, 6, 10, 8, 6).unwrap();
    assert_eq!(once.checked_add(&once), Some(twice));
}

#[test]
fn quantity_is_linear_in_each_head_count() {
    let l = line(ratio(7, 3), Some(ratio(2, 5)), None, Some(ratio(11, 10)));
    let base = required_quantity(&l, 6, 5, 4, 3).unwrap();
    let more_children = required_quantity(&l, 6, 8, 4, 3).unwrap();
    let extra_children = required_quantity(&l, 6, 3, 0, 0).unwrap();
    assert_eq!(base.checked_add(&extra_children), Some(more_children));
    let more_teens = required_quantity(&l, 6, 5, 9, 3).unwrap();
    let extra_teens = required_quantity(&l, 6, 0, 5, 0).unwrap();
    assert_eq!(base.checked_add(&extra_teens), Some(more_teens));
    let more_adults = required_quantity(&l, 6, 5, 4, 10).unwrap();
    let extra_adults = required_quantity(&l, 6, 0, 0, 7).unwrap();
    assert_eq!(base.checked_add(&extra_adults), Some(more_adults));
}

#[test]
fn required_quantity_reports_what_does_not_fit() {
    let l = line(ratio(LIMIT, 1), None, None, Some(ratio(LIMIT, 1)));
    assert_eq!(required_quantity(&l, 1, 0, 0, 2), None);
    let fine_numerator = line(ratio(1, LIMIT), None, None, Some(ratio(1, LIMIT)));
    assert_eq!(required_quantity(&fine_numerator, 7, 0, 0, 1), None);
}

#[test]
fn required_quantity_reduces_large_terms() {
    // (LIMIT / 1) * (1 adult * 1 / LIMIT) / 1 = 1
    let l = line(ratio(LIMIT, 1), None, None, Some(ratio(1, LIMIT)));
    assert_eq!(required_quantity(&l, 1, 0, 0, 1), Some(Ratio::one()));
}

#[test]
fn moderate_inputs_always_have_a_quantity() {
    let l = line(ratio(999_999, 1_000_000), Some(ratio(99, 100)), Some(ratio(97, 99)), Some(ratio(100, 97)));
    assert!(required_quantity(&l, 100_000, 100_000, 100_000, 100_000).is_some());
    assert!(required_quantity(&l, 1, 100_000, 100_000, 100_000).is_some());
    let m = line(ratio(1_000_000, 999_999), Some(ratio(1, 100)), Some(ratio(1, 99)), Some(ratio(1, 97)));
    assert!(required_quantity(&m, 99_991, 99_989, 99_971, 100_000).is_some());
}
