//! The reasons for which input is rejected before it reaches the
//! computations.

use vstd::prelude::*;

verus! {

/// Why a camp, a recipe or an attendance record was rejected.
#[derive(Clone, Copy, Debug, PartialEq, Eq, Structural)]
pub enum ValidationError {
    /// The end date is not after the start date.
    EndDateNotAfterStart,
    /// The number of children is negative.
    NegativeChildren,
    /// The number of teens is negative.
    NegativeTeens,
    /// The number of adults is negative.
    NegativeAdults,
    /// The base servings of a recipe are zero or negative.
    NonPositiveServings,
    /// The quantity of an ingredient is zero or negative.
    NonPositiveQuantity,
    /// A multiplier is negative.
    NegativeMultiplier,
}

impl ValidationError {
    /// The text shown to the user for this error.
    pub open spec fn text(self) -> Seq<char> {
        match self {
            ValidationError::EndDateNotAfterStart => "End date must be after start date"@,
            ValidationError::NegativeChildren => "Number of children cannot be negative"@,
            ValidationError::NegativeTeens => "Number of teens cannot be negative"@,
            ValidationError::NegativeAdults => "Number of adults cannot be negative"@,
            ValidationError::NonPositiveServings => "Base servings must be greater than 0"@,
            ValidationError::NonPositiveQuantity => "All ingredient quantities must be greater than 0"@,
            ValidationError::NegativeMultiplier => "Multipliers cannot be negative"@,
        }
    }

    /// The text shown to the user for this error.
    pub fn message(&self) -> (s: String)
        ensures
            s@ == self.text(),
    {
        match self {
            ValidationError::EndDateNotAfterStart => "End date must be after start date".to_owned(),
            ValidationError::NegativeChildren => "Number of children cannot be negative".to_owned(),
            ValidationError::NegativeTeens => "Number of teens cannot be negative".to_owned(),
            ValidationError::NegativeAdults => "Number of adults cannot be negative".to_owned(),
            ValidationError::NonPositiveServings => "Base servings must be greater than 0".to_owned(),
            ValidationError::NonPositiveQuantity => "All ingredient quantities must be greater than 0".to_owned(),
            ValidationError::NegativeMultiplier => "Multipliers cannot be negative".to_owned(),
        }
    }
}

/// The first complaint about three head counts, children before teens
/// before adults; `None` when none is negative.
pub open spec fn count_error(children: i32, teens: i32, adults: i32) -> Option<ValidationError> {
    if children < 0 {
        Some(ValidationError::NegativeChildren)
    } else if teens < 0 {
        Some(ValidationError::NegativeTeens)
    } else if adults < 0 {
        Some(ValidationError::NegativeAdults)
    } else {
        None
    }
}

/// Checks that no head count is negative.
pub fn check_counts(children: i32, teens: i32, adults: i32) -> (r: Result<(), ValidationError>)
    ensures
        r == (match count_error(children, teens, adults) {
            Some(e) => Err::<(), ValidationError>(e),
            None => Ok(()),
        }),
{
    if children < 0 {
        Err(ValidationError::NegativeChildren)
    } else if teens < 0 {
        Err(ValidationError::NegativeTeens)
    } else if adults < 0 {
        Err(ValidationError::NegativeAdults)
    } else {
        Ok(())
    }
}

} // verus!
