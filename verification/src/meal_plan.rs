//! Meal plans, planned meals and their attendance.

use vstd::prelude::*;
use crate::camp::Camp;
use crate::date::Date;
use crate::meal_type::MealType;
use crate::validation::{check_counts, count_error, ValidationError};

verus! {

/// The plan of one day of a camp; there is one per camp and date.
#[derive(Clone, Copy, Debug, PartialEq, Eq, Structural)]
pub struct MealPlan {
    pub id: i64,
    pub camp_id: i64,
    pub date: Date,
}

/// One recipe assigned to one meal slot of a meal plan.
#[derive(Clone, Copy, Debug, PartialEq, Eq, Structural)]
pub struct PlannedMeal {
    pub id: i64,
    pub meal_plan_id: i64,
    pub recipe_id: i64,
    pub meal_type: MealType,
}

/// The head counts expected at one planned meal, in place of the camp's
/// defaults.
#[derive(Clone, Copy, Debug, PartialEq, Eq, Structural)]
pub struct MealAttendance {
    pub id: i64,
    pub planned_meal_id: i64,
    pub children: i32,
    pub teens: i32,
    pub adults: i32,
}

/// A planned meal with the name of its recipe and its attendance, if it has
/// one.
#[derive(Clone, Debug, PartialEq, Eq)]
pub struct PlannedMealWithDetails {
    pub planned_meal: PlannedMeal,
    pub recipe_name: String,
    pub attendance: Option<MealAttendance>,
}

/// A planned meal together with the date of its meal plan.
#[derive(Clone, Debug, PartialEq, Eq)]
pub struct ScheduledMeal {
    pub date: Date,
    pub meal: PlannedMealWithDetails,
}

/// Head counts given for a planned meal.
#[derive(Clone, Copy, Debug, PartialEq, Eq, Structural)]
pub struct CreateAttendance {
    pub children: i32,
    pub teens: i32,
    pub adults: i32,
}

/// The data of a planned meal that is to be created.
#[derive(Clone, Copy, Debug, PartialEq, Eq, Structural)]
pub struct CreatePlannedMeal {
    pub camp_id: i64,
    pub date: Date,
    pub meal_type: MealType,
    pub recipe_id: i64,
    pub attendance: Option<CreateAttendance>,
}

/// Changes to a planned meal; a field that is `None` leaves the meal's
/// value.
#[derive(Clone, Copy, Debug, PartialEq, Eq, Structural)]
pub struct UpdatePlannedMeal {
    pub recipe_id: Option<i64>,
    pub attendance: Option<CreateAttendance>,
}

/// Three head counts: children, teens and adults.
#[derive(Clone, Copy, Debug, PartialEq, Eq, Structural)]
pub struct HeadCounts {
    pub children: i32,
    pub teens: i32,
    pub adults: i32,
}

impl HeadCounts {
    /// No head count is negative.
    pub open spec fn wf(self) -> bool {
        self.children >= 0 && self.teens >= 0 && self.adults >= 0
    }
}

impl MealAttendance {
    /// No head count is negative.
    pub open spec fn wf(self) -> bool {
        count_error(self.children, self.teens, self.adults) is None
    }
}

/// The complaint about head counts that may be absent.
pub open spec fn attendance_error(attendance: Option<CreateAttendance>) -> Option<ValidationError> {
    match attendance {
        Some(a) => a.error(),
        None => None,
    }
}

/// Checks head counts where they are given.
pub fn check_attendance(attendance: &Option<CreateAttendance>) -> (r: Result<(), ValidationError>)
    ensures
        r == (match attendance_error(*attendance) {
            Some(e) => Err::<(), ValidationError>(e),
            None => Ok(()),
        }),
{
    match attendance {
        Some(a) => a.validate(),
        None => Ok(()),
    }
}

impl CreateAttendance {
    /// The first complaint about the head counts, if any.
    pub open spec fn error(self) -> Option<ValidationError> {
        count_error(self.children, self.teens, self.adults)
    }

    /// Head counts that have been checked: the error names the first
    /// negative one, children before teens before adults.
    pub fn new(children: i32, teens: i32, adults: i32) -> (r: Result<
        CreateAttendance,
        ValidationError,
    >)
        ensures
            r == (match count_error(children, teens, adults) {
                Some(e) => Err::<CreateAttendance, ValidationError>(e),
                None => Ok(CreateAttendance { children, teens, adults }),
            }),
    {
        match check_counts(children, teens, adults) {
            Err(e) => Err(e),
            Ok(()) => Ok(CreateAttendance { children, teens, adults }),
        }
    }

    /// Checks that no head count is negative.
    pub fn validate(&self) -> (r: Result<(), ValidationError>)
        ensures
            r == (match self.error() {
                Some(e) => Err::<(), ValidationError>(e),
                None => Ok(()),
            }),
    {
        check_counts(self.children, self.teens, self.adults)
    }
}

impl CreatePlannedMeal {
    /// Checks the attendance, where one is given.
    pub fn validate(&self) -> (r: Result<(), ValidationError>)
        ensures
            r == (match attendance_error(self.attendance) {
                Some(e) => Err::<(), ValidationError>(e),
                None => Ok(()),
            }),
    {
        check_attendance(&self.attendance)
    }
}

/// The attendance record of a planned meal after head counts were given for
/// it: an existing record keeps its id and takes the new counts, and
/// otherwise a record is made under `fresh_id`.
pub open spec fn upserted(
    existing: Option<MealAttendance>,
    planned_meal_id: i64,
    fresh_id: i64,
    attendance: CreateAttendance,
) -> MealAttendance {
    MealAttendance {
        id: match existing {
            Some(e) => e.id,
            None => fresh_id,
        },
        planned_meal_id,
        children: attendance.children,
        teens: attendance.teens,
        adults: attendance.adults,
    }
}

/// Inserts or replaces the attendance record of a planned meal, after
/// checking the head counts.
pub fn create_or_update_attendance(
    existing: Option<MealAttendance>,
    planned_meal_id: i64,
    fresh_id: i64,
    attendance: CreateAttendance,
) -> (r: Result<MealAttendance, ValidationError>)
    ensures
        r == (match attendance.error() {
            Some(e) => Err::<MealAttendance, ValidationError>(e),
            None => Ok(upserted(existing, planned_meal_id, fresh_id, attendance)),
        }),
        r is Ok ==> r->Ok_0.wf(),
{
    match attendance.validate() {
        Err(e) => Err(e),
        Ok(()) => Ok(
            MealAttendance {
                id: match existing {
                    Some(e) => e.id,
                    None => fresh_id,
                },
                planned_meal_id,
                children: attendance.children,
                teens: attendance.teens,
                adults: attendance.adults,
            },
        ),
    }
}

impl UpdatePlannedMeal {
    /// The planned meal after the changes; a new attendance record, where
    /// one is needed, gets `fresh_id`.
    pub open spec fn merged(self, existing: PlannedMealWithDetails, fresh_id: i64)
        -> PlannedMealWithDetails {
        PlannedMealWithDetails {
            planned_meal: PlannedMeal {
                recipe_id: match self.recipe_id {
                    Some(id) => id,
                    None => existing.planned_meal.recipe_id,
                },
                ..existing.planned_meal
            },
            recipe_name: existing.recipe_name,
            attendance: match self.attendance {
                Some(a) => Some(upserted(existing.attendance, existing.planned_meal.id, fresh_id, a)),
                None => existing.attendance,
            },
        }
    }

    /// Applies the changes to `existing`, after checking the head counts
    /// where they are given. The recipe's name is left as it is: it belongs
    /// to the recipe.
    pub fn apply(self, existing: PlannedMealWithDetails, fresh_id: i64) -> (r: Result<
        PlannedMealWithDetails,
        ValidationError,
    >)
        ensures
            r == (match attendance_error(self.attendance) {
                Some(e) => Err::<PlannedMealWithDetails, ValidationError>(e),
                None => Ok(self.merged(existing, fresh_id)),
            }),
    {
        let attendance: Option<MealAttendance> = match self.attendance {
            Some(a) => {
                match create_or_update_attendance(
                    existing.attendance,
                    existing.planned_meal.id,
                    fresh_id,
                    a,
                ) {
                    Err(e) => {
                        return Err(e);
                    },
                    Ok(record) => Some(record),
                }
            },
            None => existing.attendance,
        };
        Ok(
            PlannedMealWithDetails {
                planned_meal: PlannedMeal {
                    id: existing.planned_meal.id,
                    meal_plan_id: existing.planned_meal.meal_plan_id,
                    recipe_id: match self.recipe_id {
                        Some(id) => id,
                        None => existing.planned_meal.recipe_id,
                    },
                    meal_type: existing.planned_meal.meal_type,
                },
                recipe_name: existing.recipe_name,
                attendance,
            },
        )
    }
}

/// The head counts that count for a meal: those of its attendance record
/// where it has one, and the camp's defaults where it has none.
pub open spec fn resolved_counts(camp: Camp, attendance: Option<MealAttendance>) -> HeadCounts {
    match attendance {
        Some(a) => HeadCounts { children: a.children, teens: a.teens, adults: a.adults },
        None => HeadCounts {
            children: camp.default_children,
            teens: camp.default_teens,
            adults: camp.default_adults,
        },
    }
}

impl ScheduledMeal {
    /// The meal's attendance record, where it has one, is well formed.
    pub open spec fn wf(self) -> bool {
        self.meal.attendance is Some ==> self.meal.attendance->0.wf()
    }

    /// Whether the meal's attendance record, where it has one, is well
    /// formed.
    pub fn is_wf(&self) -> (b: bool)
        ensures
            b == self.wf(),
    {
        match self.meal.attendance {
            Some(a) => check_counts(a.children, a.teens, a.adults).is_ok(),
            None => true,
        }
    }

    /// The head counts that count for the meal.
    pub open spec fn counts(self, camp: Camp) -> HeadCounts {
        resolved_counts(camp, self.meal.attendance)
    }

    /// The head counts that count for the meal: those of its attendance
    /// record where it has one, and the camp's defaults where it has none.
    pub fn head_counts(&self, camp: &Camp) -> (r: HeadCounts)
        ensures
            r == self.counts(*camp),
            self.meal.attendance is None ==> r == (HeadCounts {
                children: camp.default_children,
                teens: camp.default_teens,
                adults: camp.default_adults,
            }),
            self.meal.attendance is Some ==> r == (HeadCounts {
                children: self.meal.attendance->0.children,
                teens: self.meal.attendance->0.teens,
                adults: self.meal.attendance->0.adults,
            }),
            (camp.wf() && self.wf()) ==> r.wf(),
    {
        match self.meal.attendance {
            Some(a) => HeadCounts { children: a.children, teens: a.teens, adults: a.adults },
            None => HeadCounts {
                children: camp.default_children,
                teens: camp.default_teens,
                adults: camp.default_adults,
            },
        }
    }
}

/// The index of the first plan of the camp for the date.
pub open spec fn plan_index(plans: Seq<MealPlan>, camp_id: i64, date: Date) -> Option<int>
    decreases plans.len(),
{
    if plans.len() == 0 {
        None
    } else if plans[0].camp_id == camp_id && plans[0].date == date {
        Some(0int)
    } else {
        match plan_index(plans.drop_first(), camp_id, date) {
            Some(i) => Some(i + 1),
            None => None,
        }
    }
}

/// `plan_index` finds the first plan of the camp for the date, and none only
/// where there is no such plan.
pub proof fn lemma_plan_index(plans: Seq<MealPlan>, camp_id: i64, date: Date)
    ensures
        match plan_index(plans, camp_id, date) {
            Some(i) => 0 <= i < plans.len() && plans[i].camp_id == camp_id && plans[i].date == date
                && forall|j: int|
                0 <= j < i ==> !((#[trigger] plans[j]).camp_id == camp_id && plans[j].date == date),
            None => forall|j: int|
                0 <= j < plans.len() ==> !((#[trigger] plans[j]).camp_id == camp_id && plans[j].date
                    == date),
        },
    decreases plans.len(),
{
    if plans.len() > 0 && !(plans[0].camp_id == camp_id && plans[0].date == date) {
        let rest = plans.drop_first();
        lemma_plan_index(rest, camp_id, date);
        match plan_index(rest, camp_id, date) {
            Some(i) => {
                assert(rest[i] == plans[i + 1]);
                assert forall|j: int| 0 <= j < i + 1 implies !((#[trigger] plans[j]).camp_id
                    == camp_id && plans[j].date == date) by {
                    if j > 0 {
                        assert(rest[j - 1] == plans[j]);
                    }
                }
            },
            None => {
                assert forall|j: int| 0 <= j < plans.len() implies !((#[trigger] plans[j]).camp_id
                    == camp_id && plans[j].date == date) by {
                    if j > 0 {
                        assert(rest[j - 1] == plans[j]);
                    }
                }
            },
        }
    }
}

/// The position of the camp's plan for the date, if there is one.
pub fn get_meal_plan(plans: &Vec<MealPlan>, camp_id: i64, date: Date) -> (r: Option<usize>)
    ensures
        match r {
            Some(i) => plan_index(plans@, camp_id, date) == Some(i as int),
            None => plan_index(plans@, camp_id, date) is None,
        },
        r is Some ==> r->0 < plans@.len(),
{
    let mut i: usize = 0;
    while i < plans.len()
        invariant
            i <= plans@.len(),
            forall|j: int|
                0 <= j < i ==> !((#[trigger] plans@[j]).camp_id == camp_id && plans@[j].date == date),
        decreases plans@.len() - i,
    {
        if plans[i].camp_id == camp_id && plans[i].date == date {
            proof {
                lemma_plan_index(plans@, camp_id, date);
            }
            return Some(i);
        }
        i += 1;
    }
    proof {
        lemma_plan_index(plans@, camp_id, date);
    }
    None
}

/// No two plans are for the same camp and date.
pub open spec fn plans_unique(plans: Seq<MealPlan>) -> bool {
    forall|i: int, j: int|
        #![trigger plans[i], plans[j]]
        0 <= i < j < plans.len() ==> !(plans[i].camp_id == plans[j].camp_id && plans[i].date
            == plans[j].date)
}

/// The position of the camp's plan for the date. Where there is none yet, a
/// plan is added under `fresh_id`; the plans that were there stay as they
/// are, and there is still at most one plan for each camp and date.
pub fn get_or_create_meal_plan(
    plans: &mut Vec<MealPlan>,
    camp_id: i64,
    date: Date,
    fresh_id: i64,
) -> (r: usize)
    ensures
        match plan_index(old(plans)@, camp_id, date) {
            Some(i) => r == i && final(plans)@ == old(plans)@,
            None => r == old(plans)@.len() && final(plans)@ == old(plans)@.push(
                MealPlan { id: fresh_id, camp_id, date },
            ),
        },
        r < final(plans)@.len(),
        final(plans)@[r as int].camp_id == camp_id,
        final(plans)@[r as int].date == date,
        plans_unique(old(plans)@) ==> plans_unique(final(plans)@),
{
    proof {
        lemma_plan_index(plans@, camp_id, date);
    }
    match get_meal_plan(plans, camp_id, date) {
        Some(i) => i,
        None => {
            plans.push(MealPlan { id: fresh_id, camp_id, date });
            plans.len() - 1
        },
    }
}

} // verus!
