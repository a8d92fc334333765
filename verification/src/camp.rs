//! Camps: a date range and the default head counts of its meals.

use vstd::prelude::*;
use crate::date::Date;
use crate::validation::{check_counts, count_error, ValidationError};

verus! {

/// A scheduled multi-day event with default head counts by age band.
#[derive(Clone, Debug, PartialEq, Eq)]
pub struct Camp {
    pub id: i64,
    pub name: String,
    pub start_date: Date,
    pub end_date: Date,
    pub default_children: i32,
    pub default_teens: i32,
    pub default_adults: i32,
    pub notes: Option<String>,
}

/// The data of a camp that is to be created.
#[derive(Clone, Debug, PartialEq, Eq)]
pub struct CreateCamp {
    pub name: String,
    pub start_date: Date,
    pub end_date: Date,
    pub default_children: i32,
    pub default_teens: i32,
    pub default_adults: i32,
    pub notes: Option<String>,
}

/// Changes to a camp; a field that is `None` leaves the camp's value.
#[derive(Clone, Debug, PartialEq, Eq)]
pub struct UpdateCamp {
    pub name: Option<String>,
    pub start_date: Option<Date>,
    pub end_date: Option<Date>,
    pub default_children: Option<i32>,
    pub default_teens: Option<i32>,
    pub default_adults: Option<i32>,
    pub notes: Option<String>,
}

/// The first complaint about a camp's dates and default head counts.
pub open spec fn camp_error(
    start_date: Date,
    end_date: Date,
    children: i32,
    teens: i32,
    adults: i32,
) -> Option<ValidationError> {
    if !start_date.before(end_date) {
        Some(ValidationError::EndDateNotAfterStart)
    } else {
        count_error(children, teens, adults)
    }
}

impl Camp {
    /// The camp's invariant: it ends after it starts and no default head
    /// count is negative.
    pub open spec fn wf(self) -> bool {
        camp_error(
            self.start_date,
            self.end_date,
            self.default_children,
            self.default_teens,
            self.default_adults,
        ) is None
    }

    /// Whether the camp is well formed.
    pub fn is_wf(&self) -> (b: bool)
        ensures
            b == self.wf(),
    {
        self.start_date.is_before(&self.end_date) && check_counts(
            self.default_children,
            self.default_teens,
            self.default_adults,
        ).is_ok()
    }
}

impl CreateCamp {
    /// The first complaint about the new camp, if any.
    pub open spec fn error(self) -> Option<ValidationError> {
        camp_error(
            self.start_date,
            self.end_date,
            self.default_children,
            self.default_teens,
            self.default_adults,
        )
    }

    /// The camp that is stored under `id` for this data.
    pub open spec fn stored(self, id: i64) -> Camp {
        Camp {
            id,
            name: self.name,
            start_date: self.start_date,
            end_date: self.end_date,
            default_children: self.default_children,
            default_teens: self.default_teens,
            default_adults: self.default_adults,
            notes: self.notes,
        }
    }

    /// Checks the date range, then the head counts.
    pub fn validate(&self) -> (r: Result<(), ValidationError>)
        ensures
            r == (match self.error() {
                Some(e) => Err::<(), ValidationError>(e),
                None => Ok(()),
            }),
    {
        if !self.start_date.is_before(&self.end_date) {
            return Err(ValidationError::EndDateNotAfterStart);
        }
        check_counts(self.default_children, self.default_teens, self.default_adults)
    }

    /// The camp to store under `id`, or the reason why the data is rejected.
    pub fn into_camp(self, id: i64) -> (r: Result<Camp, ValidationError>)
        ensures
            r == (match self.error() {
                Some(e) => Err::<Camp, ValidationError>(e),
                None => Ok(self.stored(id)),
            }),
            r is Ok ==> r->Ok_0.wf(),
    {
        match self.validate() {
            Err(e) => Err(e),
            Ok(()) => Ok(
                Camp {
                    id,
                    name: self.name,
                    start_date: self.start_date,
                    end_date: self.end_date,
                    default_children: self.default_children,
                    default_teens: self.default_teens,
                    default_adults: self.default_adults,
                    notes: self.notes,
                },
            ),
        }
    }
}

impl UpdateCamp {
    /// The camp after the changes: each field that is given replaces the
    /// existing one.
    pub open spec fn merged(self, existing: Camp) -> Camp {
        Camp {
            id: existing.id,
            name: match self.name {
                Some(n) => n,
                None => existing.name,
            },
            start_date: match self.start_date {
                Some(d) => d,
                None => existing.start_date,
            },
            end_date: match self.end_date {
                Some(d) => d,
                None => existing.end_date,
            },
            default_children: match self.default_children {
                Some(n) => n,
                None => existing.default_children,
            },
            default_teens: match self.default_teens {
                Some(n) => n,
                None => existing.default_teens,
            },
            default_adults: match self.default_adults {
                Some(n) => n,
                None => existing.default_adults,
            },
            notes: match self.notes {
                Some(n) => Some(n),
                None => existing.notes,
            },
        }
    }

    /// The first complaint about the camp after the changes, if any.
    pub open spec fn error(self, existing: Camp) -> Option<ValidationError> {
        let m = self.merged(existing);
        camp_error(m.start_date, m.end_date, m.default_children, m.default_teens, m.default_adults)
    }

    /// Applies the changes to `existing` and validates the outcome.
    pub fn apply(self, existing: Camp) -> (r: Result<Camp, ValidationError>)
        ensures
            r == (match self.error(existing) {
                Some(e) => Err::<Camp, ValidationError>(e),
                None => Ok(self.merged(existing)),
            }),
            r is Ok ==> r->Ok_0.wf(),
    {
        let start_date: Date = match self.start_date {
            Some(d) => d,
            None => existing.start_date,
        };
        let end_date: Date = match self.end_date {
            Some(d) => d,
            None => existing.end_date,
        };
        let children: i32 = match self.default_children {
            Some(n) => n,
            None => existing.default_children,
        };
        let teens: i32 = match self.default_teens {
            Some(n) => n,
            None => existing.default_teens,
        };
        let adults: i32 = match self.default_adults {
            Some(n) => n,
            None => existing.default_adults,
        };
        if !start_date.is_before(&end_date) {
            return Err(ValidationError::EndDateNotAfterStart);
        }
        match check_counts(children, teens, adults) {
            Err(e) => Err(e),
            Ok(()) => Ok(
                Camp {
                    id: existing.id,
                    name: match self.name {
                        Some(n) => n,
                        None => existing.name,
                    },
                    start_date,
                    end_date,
                    default_children: children,
                    default_teens: teens,
                    default_adults: adults,
                    notes: match self.notes {
                        Some(n) => Some(n),
                        None => existing.notes,
                    },
                },
            ),
        }
    }
}

} // verus!
