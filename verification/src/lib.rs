//! Meal planning for camps.
//!
//! A camp has planned meals; each planned meal has a recipe, and each recipe
//! has ingredient lines with a base quantity and a multiplier for each of
//! three age bands. From these the library computes, exactly:
//!
//! - the quantity of an ingredient line that one meal needs ([`scaling`]);
//! - the shopping list of a date range, with totals by ingredient and unit
//!   ([`references`], [`contributions`], [`totals`], [`shopping`],
//!   [`report`]);
//! - the meal schedule and the attendance summary of a camp ([`schedule`]);
//! - the stored form of legacy recipes, which list raw quantities by age
//!   group ([`decimal`], [`legacy`], [`normalizer`], [`import`]).
//!
//! Quantities and multipliers are exact rational numbers ([`ratio`]); a
//! result that cannot be represented is reported and never rounded. Input
//! is validated where it is created or changed ([`validation`], [`camp`],
//! [`recipe`], [`meal_plan`], [`forms`]).
//!
//! What holds of every result, beyond the contract of each function, is
//! stated and proved in [`shopping_laws`] and [`import_laws`], and beside
//! the functions in [`scaling`], [`schedule`], [`sorting`] and [`ratio`].

pub mod ratio;
pub mod text;
pub mod sorting;
pub mod date;
pub mod meal_type;
pub mod validation;
pub mod camp;
pub mod catalog;
pub mod recipe;
pub mod meal_plan;
pub mod scaling;
pub mod schedule;
pub mod references;
pub mod contributions;
pub mod totals;
pub mod shopping;
pub mod shopping_laws;
pub mod report;
pub mod decimal;
pub mod normalizer;
pub mod legacy;
pub mod name_index;
pub mod import;
pub mod import_laws;
pub mod forms;
pub mod ui;
pub mod auth;
