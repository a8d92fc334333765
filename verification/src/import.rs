//! Matching the ingredients of legacy data with those that are stored.

use vstd::prelude::*;
use crate::catalog::CreateIngredient;
use crate::name_index::NameIndex;
use crate::text::str_equal;

verus! {

/// The lower-case form of a text, as the standard library gives it.
pub uninterp spec fn lowercased(text: Seq<char>) -> Seq<char>;

/// Calls `str::to_lowercase` of the standard library. The contract only
/// names the result: it is the lower-case form of the text by the Unicode
/// tables of the standard library, a function of the text alone.
#[verifier::external_body]
fn to_lowercase(text: &str) -> (r: String)
    ensures
        r@ == lowercased(text@),
{
    text.to_lowercase()
}

/// The id that stands for `name`, or `fallback` where none does.
pub open spec fn id_or(names: Map<Seq<char>, i64>, name: Seq<char>, fallback: i64) -> i64 {
    if names.dom().contains(name) {
        names[name]
    } else {
        fallback
    }
}

/// The category for ingredients of no known kind: the one named `Other`, or
/// 99 where there is none.
pub open spec fn fallback_category_of(categories: Map<Seq<char>, i64>) -> i64 {
    id_or(categories, "Other"@, 99)
}

/// The category of an ingredient of the given legacy kind: vegetables for
/// `ovoce zelenina`, baking goods for `pekarna`, meat and fish for `maso`,
/// and the fallback category for any other kind or where the category is
/// missing.
pub open spec fn category_of_kind(kind: Seq<char>, categories: Map<Seq<char>, i64>) -> i64 {
    let other = fallback_category_of(categories);
    if kind == "ovoce zelenina"@ {
        id_or(categories, "Vegetables"@, other)
    } else if kind == "pekarna"@ {
        id_or(categories, "Baking Goods"@, other)
    } else if kind == "maso"@ {
        id_or(categories, "Meat & Fish"@, other)
    } else {
        other
    }
}

/// The id that stands for `name`, or `fallback` where none does.
pub fn get_or(names: &NameIndex, name: &str, fallback: i64) -> (r: i64)
    ensures
        r == id_or(names@, name@, fallback),
{
    match names.get(name) {
        Some(id) => id,
        None => fallback,
    }
}

/// The category for ingredients of no known kind.
pub fn fallback_category(categories: &NameIndex) -> (r: i64)
    ensures
        r == fallback_category_of(categories@),
{
    get_or(categories, "Other", 99)
}

/// The category of an ingredient of the given legacy kind.
pub fn map_category(kind: &str, categories: &NameIndex) -> (r: i64)
    ensures
        r == category_of_kind(kind@, categories@),
{
    let other: i64 = fallback_category(categories);
    if str_equal(kind, "ovoce zelenina") {
        get_or(categories, "Vegetables", other)
    } else if str_equal(kind, "pekarna") {
        get_or(categories, "Baking Goods", other)
    } else if str_equal(kind, "maso") {
        get_or(categories, "Meat & Fish", other)
    } else {
        other
    }
}

/// The ingredient that a key stands for: the one registered under the key
/// itself, or else the one registered under `lowered`.
pub open spec fn resolved(names: Map<Seq<char>, i64>, key: Seq<char>, lowered: Seq<char>) -> Option<
    i64,
> {
    if names.dom().contains(key) {
        Some(names[key])
    } else if names.dom().contains(lowered) {
        Some(names[lowered])
    } else {
        None
    }
}

/// The ingredient that a key stands for, given the lower-case form of the
/// key: the exact key is tried first.
pub fn resolve_with(names: &NameIndex, key: &str, lowered: &str) -> (r: Option<i64>)
    ensures
        r == resolved(names@, key@, lowered@),
{
    match names.get(key) {
        Some(id) => Some(id),
        None => names.get(lowered),
    }
}

/// The ingredient that a key stands for: the key is matched as it is
/// written, and then in lower case.
pub fn resolve_ingredient(names: &NameIndex, key: &str) -> (r: Option<i64>)
    ensures
        r == resolved(names@, key@, lowercased(key@)),
{
    let lowered: String = to_lowercase(key);
    resolve_with(names, key, lowered.as_str())
}

/// The names after an ingredient is registered: its key stands for it,
/// whatever it stood for, and so does `lowered` unless it stands for an
/// ingredient already.
pub open spec fn registered(
    names: Map<Seq<char>, i64>,
    key: Seq<char>,
    lowered: Seq<char>,
    id: i64,
) -> Map<Seq<char>, i64> {
    let with_key = names.insert(key, id);
    if with_key.dom().contains(lowered) {
        with_key
    } else {
        with_key.insert(lowered, id)
    }
}

/// Registers an ingredient under its key and, given the lower-case form of
/// its name, under that form where it is free.
pub fn register_with(names: &mut NameIndex, key: String, lowered: String, id: i64)
    ensures
        final(names)@ == registered(old(names)@, key@, lowered@, id),
{
    names.insert(key, id);
    names.insert_if_absent(lowered, id);
}

/// Registers an ingredient under its key and under its name in lower case,
/// so that later keys find it however they are written.
pub fn register_ingredient(names: &mut NameIndex, key: String, name: &str, id: i64)
    ensures
        final(names)@ == registered(old(names)@, key@, lowercased(name@), id),
{
    let lowered: String = to_lowercase(name);
    register_with(names, key, lowered, id);
}

/// The ingredient that is created for a key that no stored ingredient
/// matches: named by the key, in the fallback category, measured in grams.
pub fn auto_created_ingredient(key: &str, fallback_category: i64) -> (r: CreateIngredient)
    ensures
        r.name@ == key@,
        r.category_id == fallback_category,
        r.primary_unit@ == "g"@,
        r.secondary_unit is None,
{
    CreateIngredient {
        name: key.to_owned(),
        category_id: fallback_category,
        primary_unit: "g".to_owned(),
        secondary_unit: None,
    }
}

} // verus!
