use meal_planning::normalizer::{
    derive_multipliers, normalize_quantities, quantity_per_person, ImportError, Multipliers,
    RawQuantities,
};
use meal_planning::ratio::{Ratio, LIMIT};
use meal_planning::recipe::RecipeIngredient;
use meal_planning::scaling::required_quantity;

fn ratio(n: i64, d: i64) -> Ratio {
    Ratio::new(n, d).unwrap()
}

fn whole(n: i32) -> Ratio {
    Ratio::from_int(n)
}

fn raw(general: Ratio, child: Ratio, teen: Ratio, adult: Ratio) -> RawQuantities {
    RawQuantities { general, child, teen, adult }
}

fn line_of(m: &Multipliers) -> RecipeIngredient {
    RecipeIngredient {
        id: 1,
        recipe_id: 1,
        ingredient_id: 1,
        base_quantity: m.base_quantity,
        unit: "g".to_string(),
        child_multiplier: Some(m.child_multiplier),
        teen_multiplier: Some(m.teen_multiplier),
        adult_multiplier: Some(m.adult_multiplier),
        notes: None,
    }
}

#[test]
fn per_person_shares_the_general_quantity() {
    assert_eq!(quantity_per_person(&whole(20), &whole(10), &whole(5)), Some(whole(6)));
    assert_eq!(quantity_per_person(&whole(0), &whole(10), &whole(5)), Some(whole(2)));
    assert_eq!(quantity_per_person(&whole(1), &whole(1), &whole(3)), Some(ratio(2, 3)));
}

#[test]
fn import_round_trip_adult_reference() {
    let m = normalize_quantities(&raw(whole(10), whole(0), whole(0), whole(20)), &whole(5))
        .unwrap()
        .unwrap();
    assert_eq!(m.base_quantity, whole(6));
    assert_eq!(m.child_multiplier, ratio(1, 3));
    assert_eq!(m.teen_multiplier, ratio(1, 3));
    assert_eq!(m.adult_multiplier, Ratio::one());
    assert_eq!(required_quantity(&line_of(&m), 5, 0, 0, 5), Some(whole(6)));
    // with the stored base servings of one, five adults need the raw total
    assert_eq!(required_quantity(&line_of(&m), 1, 0, 0, 5), Some(whole(30)));
}

#[test]
fn import_child_reference_when_adults_have_nothing() {
    let m = normalize_quantities(&raw(whole(0), whole(8), whole(12), whole(0)), &whole(4))
        .unwrap()
        .unwrap();
    assert_eq!(m.base_quantity, whole(2));
    assert_eq!(m.child_multiplier, Ratio::one());
    assert_eq!(m.teen_multiplier, ratio(3, 2));
    assert_eq!(m.adult_multiplier, Ratio::zero());
    assert_eq!(required_quantity(&line_of(&m), 1, 4, 0, 0), Some(whole(8)));
}

#[test]
fn import_teen_reference_when_only_teens_have_something() {
    let m = normalize_quantities(&raw(whole(0), whole(0), whole(9), whole(0)), &whole(3))
        .unwrap()
        .unwrap();
    assert_eq!(m.base_quantity, whole(3));
    assert_eq!(m.child_multiplier, Ratio::zero());
    assert_eq!(m.teen_multiplier, Ratio::one());
    assert_eq!(m.adult_multiplier, Ratio::zero());
    assert_eq!(required_quantity(&line_of(&m), 1, 0, 3, 0), Some(whole(9)));
}

#[test]
fn import_skips_an_ingredient_without_quantities() {
    let zero = Ratio::zero();
    assert_eq!(normalize_quantities(&raw(zero, zero, zero, zero), &whole(5)), Ok(None));
    assert_eq!(normalize_quantities(&raw(zero, zero, zero, zero), &ratio(7, 2)), Ok(None));
}

#[test]
fn import_general_quantity_alone_gives_equal_multipliers() {
    let m = normalize_quantities(&raw(whole(12), whole(0), whole(0), whole(0)), &whole(4))
        .unwrap()
        .unwrap();
    assert_eq!(m.base_quantity, whole(3));
    assert_eq!(m.child_multiplier, Ratio::one());
    assert_eq!(m.teen_multiplier, Ratio::one());
    assert_eq!(m.adult_multiplier, Ratio::one());
}

#[test]
fn import_branch_order_prefers_adults() {
    // all three bands present: adults are the reference
    let m = derive_multipliers(&whole(4), &whole(2), &whole(3)).unwrap().unwrap();
    assert_eq!(m.base_quantity, whole(4));
    assert_eq!(m.child_multiplier, ratio(1, 2));
    assert_eq!(m.teen_multiplier, ratio(3, 4));
    assert_eq!(m.adult_multiplier, Ratio::one());
    // negative per-person quantities are not present
    assert_eq!(derive_multipliers(&whole(-4), &whole(-2), &whole(-3)), Ok(None));
}

#[test]
fn import_reports_overflow() {
    let big = ratio(LIMIT, 1);
    assert_eq!(
        normalize_quantities(&raw(big, whole(0), whole(0), big), &whole(1)),
        Err(ImportError::Overflow)
    );
    assert_eq!(
        derive_multipliers(&ratio(1, LIMIT), &big, &whole(0)),
        Err(ImportError::Overflow)
    );
}
