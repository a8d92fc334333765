//! The fixed, ordered set of meal slots of a day.

use vstd::prelude::*;
use crate::text::str_equal;

verus! {

/// A meal slot. The variants are listed in the order of the day.
#[derive(Clone, Copy, Debug, PartialEq, Eq, Structural)]
pub enum MealType {
    Breakfast,
    MorningSnack,
    Lunch,
    AfternoonSnack,
    Dinner,
}

impl MealType {
    /// The stored name of the slot.
    pub open spec fn name(self) -> Seq<char> {
        match self {
            MealType::Breakfast => "breakfast"@,
            MealType::MorningSnack => "morning_snack"@,
            MealType::Lunch => "lunch"@,
            MealType::AfternoonSnack => "afternoon_snack"@,
            MealType::Dinner => "dinner"@,
        }
    }

    /// The position of the slot in the day, from 1 to 5.
    pub open spec fn ordinal(self) -> int {
        match self {
            MealType::Breakfast => 1,
            MealType::MorningSnack => 2,
            MealType::Lunch => 3,
            MealType::AfternoonSnack => 4,
            MealType::Dinner => 5,
        }
    }

    /// The slot with the given stored name, if there is one.
    pub open spec fn named(s: Seq<char>) -> Option<MealType> {
        if s == "breakfast"@ {
            Some(MealType::Breakfast)
        } else if s == "morning_snack"@ {
            Some(MealType::MorningSnack)
        } else if s == "lunch"@ {
            Some(MealType::Lunch)
        } else if s == "afternoon_snack"@ {
            Some(MealType::AfternoonSnack)
        } else if s == "dinner"@ {
            Some(MealType::Dinner)
        } else {
            None
        }
    }

    /// The stored name of the slot.
    pub fn as_str(&self) -> (s: &'static str)
        ensures
            s@ == self.name(),
    {
        match self {
            MealType::Breakfast => "breakfast",
            MealType::MorningSnack => "morning_snack",
            MealType::Lunch => "lunch",
            MealType::AfternoonSnack => "afternoon_snack",
            MealType::Dinner => "dinner",
        }
    }

    /// The slot with the given stored name; `None` for any other string.
    pub fn from_str(s: &str) -> (r: Option<MealType>)
        ensures
            r == MealType::named(s@),
    {
        if str_equal(s, "breakfast") {
            Some(MealType::Breakfast)
        } else if str_equal(s, "morning_snack") {
            Some(MealType::MorningSnack)
        } else if str_equal(s, "lunch") {
            Some(MealType::Lunch)
        } else if str_equal(s, "afternoon_snack") {
            Some(MealType::AfternoonSnack)
        } else if str_equal(s, "dinner") {
            Some(MealType::Dinner)
        } else {
            None
        }
    }

    /// The position of the slot in the day, from 1 to 5.
    pub fn sort_order(&self) -> (n: u8)
        ensures
            n == self.ordinal(),
            1 <= n <= 5,
    {
        match self {
            MealType::Breakfast => 1,
            MealType::MorningSnack => 2,
            MealType::Lunch => 3,
            MealType::AfternoonSnack => 4,
            MealType::Dinner => 5,
        }
    }
}

/// Reading back the stored name of a slot gives the slot.
pub proof fn lemma_name_round_trip(t: MealType)
    ensures
        MealType::named(t.name()) == Some(t),
{
    reveal_strlit("breakfast");
    reveal_strlit("morning_snack");
    reveal_strlit("lunch");
    reveal_strlit("afternoon_snack");
    reveal_strlit("dinner");
    assert("breakfast"@.len() == 9);
    assert("morning_snack"@.len() == 13);
    assert("lunch"@.len() == 5);
    assert("afternoon_snack"@.len() == 15);
    assert("dinner"@.len() == 6);
}

/// Two slots with the same position are the same slot.
pub proof fn lemma_ordinal_injective(a: MealType, b: MealType)
    requires
        a.ordinal() == b.ordinal(),
    ensures
        a == b,
{
}

} // verus!
