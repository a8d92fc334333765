use meal_planning::decimal::{char_is_digit, parse_decimal, DecimalError};
use meal_planning::legacy::{
    collect_entries, contains_key, distinct_keys, normalize_entries, normalize_legacy_recipe,
    parse_groups, parse_ingredient_line, parse_porci, sum_band, unit_of, Band, IngredientEntry,
    KeyName, LegacyGroups, NormalizedIngredient, RawLine,
};
use meal_planning::normalizer::{ImportError, RawQuantities};
use meal_planning::ratio::Ratio;

fn ratio(n: i64, d: i64) -> Ratio {
    Ratio::new(n, d).unwrap()
}

fn whole(n: i32) -> Ratio {
    Ratio::from_int(n)
}

fn texts(lines: &[&str]) -> Vec<String> {
    lines.iter().map(|l| l.to_string()).collect()
}

fn raw(band: Band, quantity: Ratio, unit: &str, key: &str) -> RawLine {
    RawLine { band, quantity, unit: unit.to_string(), key: key.to_string() }
}

#[test]
fn decimal_reads_whole_numbers_and_fractions() {
    assert_eq!(parse_decimal("10"), Ok(whole(10)));
    assert_eq!(parse_decimal("0"), Ok(Ratio::zero()));
    assert_eq!(parse_decimal("007"), Ok(whole(7)));
    assert_eq!(parse_decimal("10.5"), Ok(ratio(21, 2)));
    assert_eq!(parse_decimal("0.125"), Ok(ratio(1, 8)));
    assert_eq!(parse_decimal("2.50"), Ok(ratio(5, 2)));
    assert_eq!(parse_decimal(".5"), Ok(ratio(1, 2)));
    assert_eq!(parse_decimal("5."), Ok(whole(5)));
    assert_eq!(parse_decimal("0.1"), Ok(ratio(1, 10)));
}

#[test]
fn decimal_reads_signs() {
    assert_eq!(parse_decimal("-1.5"), Ok(ratio(-3, 2)));
    assert_eq!(parse_decimal("+1.5"), Ok(ratio(3, 2)));
    assert_eq!(parse_decimal("-0"), Ok(Ratio::zero()));
}

#[test]
fn decimal_rejects_what_is_no_number() {
    for text in ["", ".", "-", "+", "-.", "1.2.3", "1,5", "abc", "1a", "a1", " 1", "1 ", "--1", "1-", "1e3", "inf", "NaN", "１"] {
        assert_eq!(parse_decimal(text), Err(DecimalError::Invalid), "{:?}", text);
    }
}

#[test]
fn decimal_reports_numbers_that_are_too_large() {
    assert_eq!(parse_decimal("9223372036854775807"), Ok(ratio(i64::MAX, 1)));
    assert_eq!(parse_decimal("9223372036854775808"), Err(DecimalError::TooLarge));
    assert_eq!(parse_decimal("-9223372036854775807"), Ok(ratio(-i64::MAX, 1)));
    assert_eq!(parse_decimal("0.0000000000000000001"), Err(DecimalError::TooLarge));
    let long = "1".repeat(60);
    assert_eq!(parse_decimal(&long), Err(DecimalError::TooLarge));
    let long_invalid = format!("{}x", "1".repeat(60));
    assert_eq!(parse_decimal(&long_invalid), Err(DecimalError::Invalid));
    let many_zeros = format!("1.{}", "0".repeat(60));
    assert_eq!(parse_decimal(&many_zeros), Err(DecimalError::TooLarge));
    assert_eq!(parse_decimal("92233720368547758070.0"), Err(DecimalError::TooLarge));
    assert_eq!(parse_decimal("9223372036854775807.0"), Ok(ratio(i64::MAX, 1)));
}

#[test]
fn digits_are_the_ascii_digits() {
    assert!(char_is_digit('0'));
    assert!(char_is_digit('9'));
    assert!(!char_is_digit('/'));
    assert!(!char_is_digit(':'));
    assert!(!char_is_digit('٣'));
}

#[test]
fn ingredient_line_has_quantity_unit_and_key() {
    assert_eq!(
        parse_ingredient_line("200 g  mouka hladka", Band::General),
        Ok(Some(raw(Band::General, whole(200), "g", "mouka hladka")))
    );
    assert_eq!(
        parse_ingredient_line("1.5 kg  brambory", Band::Adult),
        Ok(Some(raw(Band::Adult, ratio(3, 2), "kg", "brambory")))
    );
    // more than two spaces: the rest belongs to the key and is trimmed
    assert_eq!(
        parse_ingredient_line("2 ks    vejce  L ", Band::Child),
        Ok(Some(raw(Band::Child, whole(2), "ks", "vejce  L")))
    );
    // a unit of several words
    assert_eq!(
        parse_ingredient_line("3 velke lzice  olej", Band::Teen),
        Ok(Some(raw(Band::Teen, whole(3), "velke lzice", "olej")))
    );
    // an empty key
    assert_eq!(
        parse_ingredient_line("3 g  ", Band::Teen),
        Ok(Some(raw(Band::Teen, whole(3), "g", "")))
    );
}

#[test]
fn ingredient_line_that_cannot_be_read_is_skipped() {
    for line in ["", "200 g mouka", "200g  mouka", "mnoho g  mouka", " 200 g  mouka", "  200 g", "g  mouka", "1e3 g  mouka"] {
        assert_eq!(parse_ingredient_line(line, Band::General), Ok(None), "{:?}", line);
    }
}

#[test]
fn ingredient_line_with_a_quantity_that_does_not_fit_is_an_error() {
    assert_eq!(
        parse_ingredient_line("99999999999999999999 g  mouka", Band::General),
        Err(ImportError::Overflow)
    );
}

#[test]
fn porci_is_at_least_one() {
    assert_eq!(parse_porci("5"), whole(5));
    assert_eq!(parse_porci("2.5"), ratio(5, 2));
    assert_eq!(parse_porci("1"), whole(1));
    assert_eq!(parse_porci("0.5"), whole(1));
    assert_eq!(parse_porci("0"), whole(1));
    assert_eq!(parse_porci("-3"), whole(1));
    assert_eq!(parse_porci(""), whole(1));
    assert_eq!(parse_porci("many"), whole(1));
    assert_eq!(parse_porci(" 5"), whole(1));
    assert_eq!(parse_porci("99999999999999999999"), whole(1));
}

#[test]
fn groups_are_read_in_the_order_general_child_teen_adult() {
    let groups = LegacyGroups {
        general: texts(&["10 g  sul", "nonsense"]),
        decko: texts(&["1 ks  rohlik"]),
        pubos: texts(&[]),
        dospelak: texts(&["2 ks  rohlik", "5 g  sul"]),
    };
    assert_eq!(
        parse_groups(&groups),
        Ok(vec![
            raw(Band::General, whole(10), "g", "sul"),
            raw(Band::Child, whole(1), "ks", "rohlik"),
            raw(Band::Adult, whole(2), "ks", "rohlik"),
            raw(Band::Adult, whole(5), "g", "sul"),
        ])
    );
    let bad = LegacyGroups {
        general: texts(&["10 g  sul"]),
        decko: texts(&[]),
        pubos: texts(&["99999999999999999999 g  sul"]),
        dospelak: texts(&[]),
    };
    assert_eq!(parse_groups(&bad), Err(ImportError::Overflow));
}

#[test]
fn sums_and_units_go_by_key() {
    let lines = vec![
        raw(Band::General, whole(10), "g", "sul"),
        raw(Band::General, ratio(1, 2), "kg", "sul"),
        raw(Band::Child, whole(1), "ks", "rohlik"),
        raw(Band::Adult, whole(2), "kusy", "rohlik"),
        raw(Band::Adult, whole(5), "g", "sul"),
    ];
    assert_eq!(sum_band(&lines, Band::General, "sul"), Some(ratio(21, 2)));
    assert_eq!(sum_band(&lines, Band::Adult, "sul"), Some(whole(5)));
    assert_eq!(sum_band(&lines, Band::Teen, "sul"), Some(Ratio::zero()));
    assert_eq!(sum_band(&lines, Band::Adult, "Sul"), Some(Ratio::zero()));
    assert_eq!(unit_of(&lines, "sul"), "g");
    assert_eq!(unit_of(&lines, "rohlik"), "ks");
    assert_eq!(unit_of(&lines, "maslo"), "");
    let keys = distinct_keys(&lines);
    assert_eq!(keys, vec![KeyName { name: "sul".to_string() }, KeyName { name: "rohlik".to_string() }]);
    assert!(contains_key(&keys, "rohlik"));
    assert!(!contains_key(&keys, "Rohlik"));
}

#[test]
fn entries_are_in_the_order_of_the_keys() {
    let lines = vec![
        raw(Band::General, whole(10), "g", "sul"),
        raw(Band::Child, whole(1), "ks", "rohlik"),
        raw(Band::Adult, whole(2), "ks", "rohlik"),
        raw(Band::Teen, whole(3), "g", "Sul"),
        raw(Band::Adult, whole(5), "g", "sul"),
    ];
    let zero = Ratio::zero();
    assert_eq!(
        collect_entries(&lines),
        Ok(vec![
            IngredientEntry {
                key: "Sul".to_string(),
                quantities: RawQuantities { general: zero, child: zero, teen: whole(3), adult: zero },
                unit: "g".to_string(),
            },
            IngredientEntry {
                key: "rohlik".to_string(),
                quantities: RawQuantities { general: zero, child: whole(1), teen: zero, adult: whole(2) },
                unit: "ks".to_string(),
            },
            IngredientEntry {
                key: "sul".to_string(),
                quantities: RawQuantities { general: whole(10), child: zero, teen: zero, adult: whole(5) },
                unit: "g".to_string(),
            },
        ])
    );
    assert_eq!(collect_entries(&vec![]), Ok(vec![]));
    let too_much = vec![
        raw(Band::General, ratio(i64::MAX, 1), "g", "sul"),
        raw(Band::General, whole(1), "g", "sul"),
    ];
    assert_eq!(collect_entries(&too_much), Err(ImportError::Overflow));
}

#[test]
fn legacy_recipe_is_normalised_by_key() {
    let groups = LegacyGroups {
        general: texts(&["10 g  sul", "0 g  pepr"]),
        decko: texts(&["4 ks  rohlik"]),
        pubos: texts(&["8 ks  rohlik"]),
        dospelak: texts(&["20 g  sul"]),
    };
    let rows = normalize_legacy_recipe(&groups, "5").unwrap();
    assert_eq!(
        rows,
        vec![
            NormalizedIngredient {
                ingredient_key: "rohlik".to_string(),
                base_quantity: ratio(4, 5),
                unit: "ks".to_string(),
                child_multiplier: Ratio::one(),
                teen_multiplier: whole(2),
                adult_multiplier: Ratio::zero(),
            },
            NormalizedIngredient {
                ingredient_key: "sul".to_string(),
                base_quantity: whole(6),
                unit: "g".to_string(),
                child_multiplier: ratio(1, 3),
                teen_multiplier: ratio(1, 3),
                adult_multiplier: Ratio::one(),
            },
        ]
    );
}

#[test]
fn legacy_recipe_gives_the_same_rows_on_every_run() {
    let groups = LegacyGroups {
        general: texts(&["1 g  b", "1 g  a", "1 g  c"]),
        decko: texts(&["1 g  d"]),
        pubos: texts(&[]),
        dospelak: texts(&["1 g  A"]),
    };
    let first = normalize_legacy_recipe(&groups, "2").unwrap();
    let second = normalize_legacy_recipe(&groups, "2").unwrap();
    assert_eq!(first, second);
    let keys: Vec<&str> = first.iter().map(|r| r.ingredient_key.as_str()).collect();
    assert_eq!(keys, vec!["A", "a", "b", "c", "d"]);
}

#[test]
fn legacy_recipe_with_unreadable_porci_is_for_one_person() {
    let groups = LegacyGroups {
        general: texts(&[]),
        decko: texts(&[]),
        pubos: texts(&[]),
        dospelak: texts(&["20 g  sul"]),
    };
    let rows = normalize_legacy_recipe(&groups, "asi 5").unwrap();
    assert_eq!(rows[0].base_quantity, whole(20));
    let empty = LegacyGroups { general: vec![], decko: vec![], pubos: vec![], dospelak: vec![] };
    assert_eq!(normalize_legacy_recipe(&empty, "5"), Ok(vec![]));
}

#[test]
fn legacy_recipe_reports_overflow() {
    let groups = LegacyGroups {
        general: texts(&["9223372036854775807 g  sul"]),
        decko: texts(&[]),
        pubos: texts(&[]),
        dospelak: texts(&["9223372036854775807 g  sul"]),
    };
    assert_eq!(normalize_legacy_recipe(&groups, "1"), Err(ImportError::Overflow));
    let entry = IngredientEntry {
        key: "sul".to_string(),
        quantities: RawQuantities {
            general: ratio(i64::MAX, 1),
            child: Ratio::zero(),
            teen: Ratio::zero(),
            adult: ratio(i64::MAX, 1),
        },
        unit: "g".to_string(),
    };
    assert_eq!(normalize_entries(&vec![entry], &whole(1)), Err(ImportError::Overflow));
}
