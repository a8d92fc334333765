//! Meal schedules and attendance summaries of a camp.

use vstd::prelude::*;
use crate::camp::Camp;
use crate::date::Date;
use crate::meal_plan::{HeadCounts, ScheduledMeal};
use crate::meal_type::MealType;
use crate::sorting::{
    keys_distinct, lemma_sort_ignores_input_order, lemma_sort_ignores_reversal, sort_by_key,
    sorted_of, Keyed,
};

verus! {

/// One line of a meal schedule.
#[derive(Clone, Debug, PartialEq, Eq)]
pub struct MealScheduleItem {
    pub date: Date,
    pub meal_type: MealType,
    pub recipe_name: String,
    pub children: i32,
    pub teens: i32,
    pub adults: i32,
}

/// One line of an attendance summary.
#[derive(Clone, Copy, Debug, PartialEq, Eq, Structural)]
pub struct AttendanceSummary {
    pub date: Date,
    pub meal_type: MealType,
    pub children: i32,
    pub teens: i32,
    pub adults: i32,
    pub total_people: i64,
}

/// A slot of the schedule, `(date, meal type)`, comes strictly before
/// another: an earlier date, or the same date and an earlier meal of the
/// day.
pub open spec fn slot_before(d1: Date, t1: MealType, d2: Date, t2: MealType) -> bool {
    d1.before(d2) || (d1 == d2 && t1.ordinal() < t2.ordinal())
}

impl Keyed for ScheduledMeal {
    open spec fn precedes(&self, other: &Self) -> bool {
        slot_before(
            self.date,
            self.meal.planned_meal.meal_type,
            other.date,
            other.meal.planned_meal.meal_type,
        )
    }

    fn comes_before(&self, other: &Self) -> (b: bool) {
        self.date.is_before(&other.date) || (self.date == other.date
            && self.meal.planned_meal.meal_type.sort_order()
            < other.meal.planned_meal.meal_type.sort_order())
    }

    proof fn lemma_irreflexive(a: &Self) {
    }

    proof fn lemma_transitive(a: &Self, b: &Self, c: &Self) {
    }
}

/// The schedule line of a meal: its slot, its recipe, and the head counts
/// that count for it.
pub open spec fn schedule_item(camp: Camp, meal: ScheduledMeal) -> MealScheduleItem {
    let counts = meal.counts(camp);
    MealScheduleItem {
        date: meal.date,
        meal_type: meal.meal.planned_meal.meal_type,
        recipe_name: meal.meal.recipe_name,
        children: counts.children,
        teens: counts.teens,
        adults: counts.adults,
    }
}

/// The summary line of a meal: its slot, the head counts that count for it,
/// and their sum.
pub open spec fn summary_item(camp: Camp, meal: ScheduledMeal) -> AttendanceSummary {
    let counts = meal.counts(camp);
    AttendanceSummary {
        date: meal.date,
        meal_type: meal.meal.planned_meal.meal_type,
        children: counts.children,
        teens: counts.teens,
        adults: counts.adults,
        total_people: (counts.children + counts.teens + counts.adults) as i64,
    }
}

/// The lines of a schedule are in the order of their slots.
pub open spec fn schedule_in_order(items: Seq<MealScheduleItem>) -> bool {
    forall|i: int, j: int|
        #![trigger items[i], items[j]]
        0 <= i < j < items.len() ==> !slot_before(
            items[j].date,
            items[j].meal_type,
            items[i].date,
            items[i].meal_type,
        )
}

/// The lines of a summary are in the order of their slots.
pub open spec fn summary_in_order(items: Seq<AttendanceSummary>) -> bool {
    forall|i: int, j: int|
        #![trigger items[i], items[j]]
        0 <= i < j < items.len() ==> !slot_before(
            items[j].date,
            items[j].meal_type,
            items[i].date,
            items[i].meal_type,
        )
}

/// The meal schedule of a camp: one line per planned meal, by date and then
/// by the meal's place in the day. Meals in the same slot keep the order in
/// which they were given. A meal without an attendance record shows the
/// camp's default head counts.
pub fn generate_meal_schedule(camp: &Camp, meals: Vec<ScheduledMeal>) -> (r: Vec<MealScheduleItem>)
    ensures
        r@.len() == meals@.len(),
        forall|i: int|
            0 <= i < r@.len() ==> #[trigger] r@[i] == schedule_item(*camp, sorted_of(meals@)[i]),
        schedule_in_order(r@),
{
    let ghost input: Seq<ScheduledMeal> = meals@;
    let sorted: Vec<ScheduledMeal> = sort_by_key(meals);
    let mut out: Vec<MealScheduleItem> = Vec::new();
    let mut i: usize = 0;
    while i < sorted.len()
        invariant
            i <= sorted@.len(),
            out@.len() == i,
            forall|k: int| 0 <= k < i ==> #[trigger] out@[k] == schedule_item(*camp, sorted@[k]),
        decreases sorted@.len() - i,
    {
        let meal: &ScheduledMeal = &sorted[i];
        let counts: HeadCounts = meal.head_counts(camp);
        out.push(
            MealScheduleItem {
                date: meal.date,
                meal_type: meal.meal.planned_meal.meal_type,
                recipe_name: meal.meal.recipe_name.clone(),
                children: counts.children,
                teens: counts.teens,
                adults: counts.adults,
            },
        );
        i += 1;
    }
    proof {
        assert forall|a: int, b: int| #![trigger out@[a], out@[b]] 0 <= a < b < out@.len() implies !slot_before(
            out@[b].date,
            out@[b].meal_type,
            out@[a].date,
            out@[a].meal_type,
        ) by {
            assert(!sorted@[b].precedes(&sorted@[a]));
        }
    }
    out
}

/// The attendance summary of a camp: one line per planned meal in the order
/// of the meal schedule, with the head counts that count for the meal and
/// their sum.
pub fn generate_attendance_summary(camp: &Camp, meals: Vec<ScheduledMeal>) -> (r: Vec<
    AttendanceSummary,
>)
    ensures
        r@.len() == meals@.len(),
        forall|i: int|
            0 <= i < r@.len() ==> #[trigger] r@[i] == summary_item(*camp, sorted_of(meals@)[i]),
        forall|i: int|
            0 <= i < r@.len() ==> (#[trigger] r@[i]).total_people == r@[i].children + r@[i].teens
                + r@[i].adults,
        summary_in_order(r@),
{
    let sorted: Vec<ScheduledMeal> = sort_by_key(meals);
    let mut out: Vec<AttendanceSummary> = Vec::new();
    let mut i: usize = 0;
    while i < sorted.len()
        invariant
            i <= sorted@.len(),
            out@.len() == i,
            forall|k: int| 0 <= k < i ==> #[trigger] out@[k] == summary_item(*camp, sorted@[k]),
            forall|k: int|
                0 <= k < i ==> (#[trigger] out@[k]).total_people == out@[k].children + out@[k].teens
                    + out@[k].adults,
        decreases sorted@.len() - i,
    {
        let meal: &ScheduledMeal = &sorted[i];
        let counts: HeadCounts = meal.head_counts(camp);
        let total: i64 = counts.children as i64 + counts.teens as i64 + counts.adults as i64;
        out.push(
            AttendanceSummary {
                date: meal.date,
                meal_type: meal.meal.planned_meal.meal_type,
                children: counts.children,
                teens: counts.teens,
                adults: counts.adults,
                total_people: total,
            },
        );
        i += 1;
    }
    proof {
        assert forall|a: int, b: int| #![trigger out@[a], out@[b]] 0 <= a < b < out@.len() implies !slot_before(
            out@[b].date,
            out@[b].meal_type,
            out@[a].date,
            out@[a].meal_type,
        ) by {
            assert(!sorted@[b].precedes(&sorted@[a]));
        }
    }
    out
}

/// Whether a date lies in the closed range from `start` to `end`.
pub open spec fn date_in_range(date: Date, start: Date, end: Date) -> bool {
    !date.before(start) && !end.before(date)
}

/// The meals whose date lies in the closed range from `start` to `end`, in
/// the order in which they were given.
pub fn get_planned_meals_for_date_range(meals: Vec<ScheduledMeal>, start: Date, end: Date) -> (r:
    Vec<ScheduledMeal>)
    ensures
        r@ == meals@.filter(|m: ScheduledMeal| date_in_range(m.date, start, end)),
{
    let ghost input: Seq<ScheduledMeal> = meals@;
    let ghost pred = |m: ScheduledMeal| date_in_range(m.date, start, end);
    let mut rest: Vec<ScheduledMeal> = meals;
    let mut kept: Vec<ScheduledMeal> = Vec::new();
    // `rest` is consumed from its end, so `kept` is built back to front.
    while rest.len() > 0
        invariant
            rest@.len() <= input.len(),
            rest@ == input.take(rest@.len() as int),
            kept@.len() <= input.len() - rest@.len(),
            input.filter(pred) == rest@.filter(pred) + kept@,
            pred == (|m: ScheduledMeal| date_in_range(m.date, start, end)),
        decreases rest@.len(),
    {
        let ghost before: Seq<ScheduledMeal> = rest@;
        let meal: ScheduledMeal = rest.pop().unwrap();
        proof {
            reveal(Seq::filter);
            assert(before.drop_last() =~= rest@);
            assert(before.last() == meal);
            assert(rest@ =~= input.take(rest@.len() as int));
        }
        if meal.date.is_within(&start, &end) {
            proof {
                assert(before.filter(pred) == rest@.filter(pred).push(meal));
                assert(rest@.filter(pred).push(meal) + kept@ =~= rest@.filter(pred) + kept@.insert(
                    0,
                    meal,
                ));
            }
            kept.insert(0, meal);
        } else {
            proof {
                assert(before.filter(pred) == rest@.filter(pred));
            }
        }
    }
    proof {
        assert(rest@.filter(pred) =~= Seq::<ScheduledMeal>::empty());
        assert(input.filter(pred) =~= kept@);
    }
    kept
}

/// The planned meals of one day, by their place in the day; meals in the
/// same slot keep the order in which they were given.
pub fn get_planned_meals_for_date(meals: Vec<ScheduledMeal>, date: Date) -> (r: Vec<ScheduledMeal>)
    ensures
        r@ == sorted_of(meals@.filter(|m: ScheduledMeal| date_in_range(m.date, date, date))),
        forall|i: int| 0 <= i < r@.len() ==> (#[trigger] r@[i]).date == date,
        forall|i: int, j: int|
            #![trigger r@[i], r@[j]]
            0 <= i < j < r@.len() ==> r@[i].meal.planned_meal.meal_type.ordinal()
                <= r@[j].meal.planned_meal.meal_type.ordinal(),
{
    let of_day: Vec<ScheduledMeal> = get_planned_meals_for_date_range(meals, date, date);
    let ghost unsorted: Seq<ScheduledMeal> = of_day@;
    let sorted: Vec<ScheduledMeal> = sort_by_key(of_day);
    proof {
        broadcast use vstd::seq_lib::group_to_multiset_ensures;

        let pred = |m: ScheduledMeal| date_in_range(m.date, date, date);
        assert forall|i: int| 0 <= i < sorted@.len() implies (#[trigger] sorted@[i]).date == date by {
            assert(sorted@.to_multiset().contains(sorted@[i]));
            assert(unsorted.to_multiset().contains(sorted@[i]));
            let p = choose|p: int| 0 <= p < unsorted.len() && unsorted[p] == sorted@[i];
            meals@.lemma_filter_pred(pred, p);
            assert(pred(unsorted[p]));
        }
        assert forall|i: int, j: int|
            #![trigger sorted@[i], sorted@[j]]
            0 <= i < j < sorted@.len() implies sorted@[i].meal.planned_meal.meal_type.ordinal()
            <= sorted@[j].meal.planned_meal.meal_type.ordinal() by {
            assert(!sorted@[j].precedes(&sorted@[i]));
        }
    }
    sorted
}

/// The line of a meal without an attendance record shows the camp's default
/// head counts, and the line of a meal with one shows the record's head
/// counts and nothing of the camp's.
pub proof fn lemma_attendance_fallback(camp: Camp, meal: ScheduledMeal)
    ensures
        meal.meal.attendance is None ==> {
            &&& schedule_item(camp, meal).children == camp.default_children
            &&& schedule_item(camp, meal).teens == camp.default_teens
            &&& schedule_item(camp, meal).adults == camp.default_adults
        },
        meal.meal.attendance is Some ==> {
            &&& schedule_item(camp, meal).children == meal.meal.attendance->0.children
            &&& schedule_item(camp, meal).teens == meal.meal.attendance->0.teens
            &&& schedule_item(camp, meal).adults == meal.meal.attendance->0.adults
        },
{
}

/// The schedule does not depend on the order in which
/// the meals are given. Two inputs that hold the same meals, no two of them
/// in the same slot, give the same sequence of meals, and so the same
/// schedule and the same summary.
pub proof fn lemma_schedule_ignores_input_order(a: Seq<ScheduledMeal>, b: Seq<ScheduledMeal>)
    requires
        a.to_multiset() == b.to_multiset(),
        keys_distinct(a),
    ensures
        sorted_of(a) == sorted_of(b),
{
    lemma_sort_ignores_input_order(a, b);
}

/// Feeding the meals in reverse order gives the same schedule, where no two
/// meals are in the same slot.
pub proof fn lemma_schedule_ignores_reversal(a: Seq<ScheduledMeal>)
    requires
        keys_distinct(a),
    ensures
        sorted_of(a.reverse()) == sorted_of(a),
{
    lemma_sort_ignores_reversal(a);
}

} // verus!
