use meal_planning::import::{
    auto_created_ingredient, fallback_category, get_or, map_category, register_ingredient,
    register_with, resolve_ingredient, resolve_with,
};
use meal_planning::name_index::NameIndex;
use meal_planning::text::{
    char_is_space, find_char, find_double_space, str_equal, str_lt, trim,
};

fn index(entries: &[(&str, i64)]) -> NameIndex {
    let mut names = NameIndex::new();
    for (name, id) in entries {
        names.insert(name.to_string(), *id);
    }
    names
}

#[test]
fn str_equal_compares_characters() {
    assert!(str_equal("", ""));
    assert!(str_equal("mouka", "mouka"));
    assert!(!str_equal("mouka", "Mouka"));
    assert!(!str_equal("mouka", "mouk"));
    assert!(str_equal("šťáva", "šťáva"));
    assert!(!str_equal("stava", "šťáva"));
}

#[test]
fn str_lt_is_the_order_of_strings() {
    let words = ["", "A", "Onion", "Z", "a", "carrot", "carrots", "z", "šťáva", "žito", "日本"];
    for a in words {
        for b in words {
            assert_eq!(str_lt(a, b), a < b, "{:?} {:?}", a, b);
        }
    }
}

#[test]
fn trim_is_the_trim_of_strings() {
    for text in ["", " ", "  a  ", "a", "\t a b \n", "\u{a0}x\u{3000}", "a\u{2003}", "\u{200b}a", " \u{85} ", "x\u{1680}y"] {
        assert_eq!(trim(text), text.trim(), "{:?}", text);
    }
}

#[test]
fn white_space_is_that_of_char() {
    for code in 0u32..0x3100 {
        if let Some(c) = char::from_u32(code) {
            assert_eq!(char_is_space(c), c.is_whitespace(), "{:x}", code);
        }
    }
}

#[test]
fn find_char_and_double_space_find_the_first() {
    assert_eq!(find_char("200 g", ' '), Some(3));
    assert_eq!(find_char("200g", ' '), None);
    assert_eq!(find_char("", ' '), None);
    assert_eq!(find_char(" a b", ' '), Some(0));
    assert_eq!(find_char("šť a", ' '), Some(2));
    assert_eq!(find_double_space("200 g  mouka"), Some(5));
    assert_eq!(find_double_space("200 g mouka"), None);
    assert_eq!(find_double_space("a   b"), Some(1));
    assert_eq!(find_double_space("  "), Some(0));
    assert_eq!(find_double_space(" "), None);
    assert_eq!(find_double_space(""), None);
    for text in ["200 g  mouka", "a   b  c", "šť  a", "x", ""] {
        assert_eq!(find_double_space(text).map(|p| text.chars().take(p).collect::<String>()), text.split_once("  ").map(|(l, _)| l.to_string()));
    }
}

#[test]
fn name_index_is_a_map() {
    let mut names = NameIndex::new();
    assert_eq!(names.get("a"), None);
    names.insert("a".to_string(), 1);
    names.insert("b".to_string(), 2);
    assert_eq!(names.get("a"), Some(1));
    assert_eq!(names.get("b"), Some(2));
    assert_eq!(names.get("A"), None);
    names.insert("a".to_string(), 3);
    assert_eq!(names.get("a"), Some(3));
    assert_eq!(names.get("b"), Some(2));
    names.insert_if_absent("b".to_string(), 9);
    names.insert_if_absent("c".to_string(), 4);
    assert_eq!(names.get("b"), Some(2));
    assert_eq!(names.get("c"), Some(4));
    assert_eq!(names.entries.len(), 3);
}

#[test]
fn map_category_goes_by_the_legacy_kind() {
    let categories = index(&[("Vegetables", 1), ("Baking Goods", 2), ("Meat & Fish", 3), ("Other", 4)]);
    assert_eq!(map_category("ovoce zelenina", &categories), 1);
    assert_eq!(map_category("pekarna", &categories), 2);
    assert_eq!(map_category("maso", &categories), 3);
    assert_eq!(map_category("koreni", &categories), 4);
    assert_eq!(map_category("", &categories), 4);
    assert_eq!(map_category("Maso", &categories), 4);
    assert_eq!(fallback_category(&categories), 4);
}

#[test]
fn map_category_falls_back_where_a_category_is_missing() {
    let only_other = index(&[("Other", 4)]);
    assert_eq!(map_category("maso", &only_other), 4);
    let nothing = NameIndex::new();
    assert_eq!(map_category("maso", &nothing), 99);
    assert_eq!(map_category("koreni", &nothing), 99);
    assert_eq!(fallback_category(&nothing), 99);
    let no_other = index(&[("Vegetables", 1)]);
    assert_eq!(map_category("ovoce zelenina", &no_other), 1);
    assert_eq!(map_category("pekarna", &no_other), 99);
    assert_eq!(get_or(&no_other, "Vegetables", 7), 1);
    assert_eq!(get_or(&no_other, "Fruit", 7), 7);
}

#[test]
fn ingredient_is_matched_exactly_and_then_in_lower_case() {
    let names = index(&[("Mouka", 1), ("mouka", 2), ("sul", 3)]);
    assert_eq!(resolve_ingredient(&names, "Mouka"), Some(1));
    assert_eq!(resolve_ingredient(&names, "mouka"), Some(2));
    assert_eq!(resolve_ingredient(&names, "MOUKA"), Some(2));
    assert_eq!(resolve_ingredient(&names, "SUL"), Some(3));
    assert_eq!(resolve_ingredient(&names, "Sůl"), None);
    assert_eq!(resolve_ingredient(&names, "cukr"), None);
    assert_eq!(resolve_with(&names, "x", "sul"), Some(3));
    assert_eq!(resolve_with(&names, "Mouka", "sul"), Some(1));
    assert_eq!(resolve_with(&names, "x", "y"), None);
}

#[test]
fn ingredient_is_registered_under_key_and_lower_case_name() {
    let mut names = NameIndex::new();
    register_ingredient(&mut names, "mouka_hladka".to_string(), "Mouka Hladká", 1);
    assert_eq!(names.get("mouka_hladka"), Some(1));
    assert_eq!(names.get("mouka hladká"), Some(1));
    assert_eq!(names.get("Mouka Hladká"), None);
    // the lower-case name of a later ingredient does not replace an entry
    register_ingredient(&mut names, "jina".to_string(), "MOUKA HLADKÁ", 2);
    assert_eq!(names.get("jina"), Some(2));
    assert_eq!(names.get("mouka hladká"), Some(1));
    // the key does
    register_ingredient(&mut names, "mouka_hladka".to_string(), "x", 3);
    assert_eq!(names.get("mouka_hladka"), Some(3));
    register_with(&mut names, "k".to_string(), "k".to_string(), 5);
    assert_eq!(names.get("k"), Some(5));
}

#[test]
fn unmatched_key_creates_an_ingredient_in_grams() {
    let created = auto_created_ingredient("Kmín", 4);
    assert_eq!(created.name, "Kmín");
    assert_eq!(created.category_id, 4);
    assert_eq!(created.primary_unit, "g");
    assert_eq!(created.secondary_unit, None);
}
