//! Names, labels and style classes of user-interface elements, and the
//! list of notifications.

use vstd::prelude::*;
use crate::meal_type::MealType;

verus! {

/// The kinds of report that can be asked for.
#[derive(Clone, Copy, Debug, PartialEq, Eq, Structural)]
pub enum ReportType {
    ShoppingList,
    MealSchedule,
    AttendanceSummary,
}

impl ReportType {
    /// The name of the report in requests.
    pub fn as_str(&self) -> (s: &'static str)
        ensures
            s@ == (match self {
                ReportType::ShoppingList => "shopping_list"@,
                ReportType::MealSchedule => "meal_schedule"@,
                ReportType::AttendanceSummary => "attendance_summary"@,
            }),
    {
        match self {
            ReportType::ShoppingList => "shopping_list",
            ReportType::MealSchedule => "meal_schedule",
            ReportType::AttendanceSummary => "attendance_summary",
        }
    }

    /// The name of the report as it is shown.
    pub fn display(&self) -> (s: &'static str)
        ensures
            s@ == (match self {
                ReportType::ShoppingList => "Shopping List"@,
                ReportType::MealSchedule => "Meal Schedule"@,
                ReportType::AttendanceSummary => "Attendance Summary"@,
            }),
    {
        match self {
            ReportType::ShoppingList => "Shopping List",
            ReportType::MealSchedule => "Meal Schedule",
            ReportType::AttendanceSummary => "Attendance Summary",
        }
    }
}

/// The name of a meal slot as it is shown.
pub fn format_meal_type(meal_type: &MealType) -> (s: String)
    ensures
        s@ == (match meal_type {
            MealType::Breakfast => "Breakfast"@,
            MealType::MorningSnack => "Morning Snack"@,
            MealType::Lunch => "Lunch"@,
            MealType::AfternoonSnack => "Afternoon Snack"@,
            MealType::Dinner => "Dinner"@,
        }),
{
    match meal_type {
        MealType::Breakfast => "Breakfast".to_owned(),
        MealType::MorningSnack => "Morning Snack".to_owned(),
        MealType::Lunch => "Lunch".to_owned(),
        MealType::AfternoonSnack => "Afternoon Snack".to_owned(),
        MealType::Dinner => "Dinner".to_owned(),
    }
}

/// The looks of a button.
#[derive(Clone, Copy, Debug, PartialEq, Eq, Structural)]
pub enum ButtonVariant {
    Primary,
    Secondary,
    Danger,
}

impl ButtonVariant {
    /// The style class of the variant.
    pub fn class(&self) -> (s: &'static str)
        ensures
            s@ == (match self {
                ButtonVariant::Primary => "btn-primary"@,
                ButtonVariant::Secondary => "btn-secondary"@,
                ButtonVariant::Danger => "btn-danger"@,
            }),
    {
        match self {
            ButtonVariant::Primary => "btn-primary",
            ButtonVariant::Secondary => "btn-secondary",
            ButtonVariant::Danger => "btn-danger",
        }
    }
}

/// The sizes of a button.
#[derive(Clone, Copy, Debug, PartialEq, Eq, Structural)]
pub enum ButtonSize {
    Small,
    Medium,
    Large,
}

impl ButtonSize {
    /// The style class of the size; the medium size has none.
    pub fn class(&self) -> (s: &'static str)
        ensures
            s@ == (match self {
                ButtonSize::Small => "btn-sm"@,
                ButtonSize::Medium => ""@,
                ButtonSize::Large => "btn-lg"@,
            }),
    {
        match self {
            ButtonSize::Small => "btn-sm",
            ButtonSize::Medium => "",
            ButtonSize::Large => "btn-lg",
        }
    }
}

/// The kinds of notification.
#[derive(Clone, Copy, Debug, PartialEq, Eq, Structural)]
pub enum ToastVariant {
    Success,
    Error,
    Info,
    Warning,
}

impl ToastVariant {
    /// The sign shown with the notification.
    pub fn icon(&self) -> (s: &'static str)
        ensures
            s@ == (match self {
                ToastVariant::Success => "✓"@,
                ToastVariant::Error => "✕"@,
                ToastVariant::Info => "ℹ"@,
                ToastVariant::Warning => "⚠"@,
            }),
    {
        match self {
            ToastVariant::Success => "✓",
            ToastVariant::Error => "✕",
            ToastVariant::Info => "ℹ",
            ToastVariant::Warning => "⚠",
        }
    }

    /// The style class of the notification.
    pub fn class(&self) -> (s: &'static str)
        ensures
            s@ == (match self {
                ToastVariant::Success => "toast-success"@,
                ToastVariant::Error => "toast-error"@,
                ToastVariant::Info => "toast-info"@,
                ToastVariant::Warning => "toast-warning"@,
            }),
    {
        match self {
            ToastVariant::Success => "toast-success",
            ToastVariant::Error => "toast-error",
            ToastVariant::Info => "toast-info",
            ToastVariant::Warning => "toast-warning",
        }
    }

    /// The role of the notification for assistive software: an error is an
    /// alert, anything else a status.
    pub fn role(&self) -> (s: &'static str)
        ensures
            s@ == (match self {
                ToastVariant::Error => "alert"@,
                _ => "status"@,
            }),
    {
        match self {
            ToastVariant::Error => "alert",
            _ => "status",
        }
    }

    /// The number of seconds for which a notification of this kind is shown
    /// where nothing else is said.
    pub fn default_seconds(&self) -> (n: u64)
        ensures
            n == (match self {
                ToastVariant::Success => 4u64,
                ToastVariant::Error => 6u64,
                ToastVariant::Info => 4u64,
                ToastVariant::Warning => 5u64,
            }),
    {
        match self {
            ToastVariant::Success => 4,
            ToastVariant::Error => 6,
            ToastVariant::Info => 4,
            ToastVariant::Warning => 5,
        }
    }
}

/// A notification. It is shown for `seconds` seconds, or until it is
/// dismissed where `seconds` is `None`.
#[derive(Clone, Debug, PartialEq, Eq)]
pub struct Toast {
    pub id: usize,
    pub message: String,
    pub variant: ToastVariant,
    pub seconds: Option<u64>,
}

/// The notifications that are shown, oldest first, and the id of the next
/// one.
#[derive(Clone, Debug, PartialEq, Eq)]
pub struct ToastContext {
    pub toasts: Vec<Toast>,
    pub next_id: usize,
}

/// The id that follows `id`; after the largest id, counting starts again.
pub open spec fn following_id(id: usize) -> usize {
    if id == usize::MAX {
        0
    } else {
        (id + 1) as usize
    }
}

impl ToastContext {
    /// No notifications; the first will have the id 0.
    pub fn new() -> (r: ToastContext)
        ensures
            r.toasts@ == Seq::<Toast>::empty(),
            r.next_id == 0,
    {
        ToastContext { toasts: Vec::new(), next_id: 0 }
    }

    /// Shows a notification and returns its id.
    pub fn show_toast(
        &mut self,
        message: String,
        variant: ToastVariant,
        seconds: Option<u64>,
    ) -> (id: usize)
        ensures
            id == old(self).next_id,
            final(self).next_id == following_id(id),
            final(self).toasts@ == old(self).toasts@.push(Toast { id, message, variant, seconds }),
    {
        let id: usize = self.next_id;
        self.next_id = if id == usize::MAX {
            0
        } else {
            id + 1
        };
        self.toasts.push(Toast { id, message, variant, seconds });
        id
    }

    /// Shows a notification of success for four seconds.
    pub fn success(&mut self, message: String) -> (id: usize)
        ensures
            id == old(self).next_id,
            final(self).next_id == following_id(id),
            final(self).toasts@ == old(self).toasts@.push(
                Toast { id, message, variant: ToastVariant::Success, seconds: Some(4) },
            ),
    {
        self.show_toast(message, ToastVariant::Success, Some(4))
    }

    /// Shows a notification of an error for six seconds.
    pub fn error(&mut self, message: String) -> (id: usize)
        ensures
            id == old(self).next_id,
            final(self).next_id == following_id(id),
            final(self).toasts@ == old(self).toasts@.push(
                Toast { id, message, variant: ToastVariant::Error, seconds: Some(6) },
            ),
    {
        self.show_toast(message, ToastVariant::Error, Some(6))
    }

    /// Shows a notification for information for four seconds.
    pub fn info(&mut self, message: String) -> (id: usize)
        ensures
            id == old(self).next_id,
            final(self).next_id == following_id(id),
            final(self).toasts@ == old(self).toasts@.push(
                Toast { id, message, variant: ToastVariant::Info, seconds: Some(4) },
            ),
    {
        self.show_toast(message, ToastVariant::Info, Some(4))
    }

    /// Shows a warning for five seconds.
    pub fn warning(&mut self, message: String) -> (id: usize)
        ensures
            id == old(self).next_id,
            final(self).next_id == following_id(id),
            final(self).toasts@ == old(self).toasts@.push(
                Toast { id, message, variant: ToastVariant::Warning, seconds: Some(5) },
            ),
    {
        self.show_toast(message, ToastVariant::Warning, Some(5))
    }

    /// Removes the notifications with the given id; the others stay in
    /// their order.
    pub fn dismiss(&mut self, id: usize)
        ensures
            final(self).next_id == old(self).next_id,
            final(self).toasts@ == old(self).toasts@.filter(|t: Toast| t.id != id),
    {
        let ghost input: Seq<Toast> = self.toasts@;
        let ghost pred = |t: Toast| t.id != id;
        let mut kept: Vec<Toast> = Vec::new();
        // the notifications are taken from the end, so `kept` is built back
        // to front
        while self.toasts.len() > 0
            invariant
                self.next_id == old(self).next_id,
                self.toasts@.len() <= input.len(),
                self.toasts@ == input.take(self.toasts@.len() as int),
                input.filter(pred) == self.toasts@.filter(pred) + kept@,
                pred == (|t: Toast| t.id != id),
            decreases self.toasts@.len(),
        {
            let ghost before: Seq<Toast> = self.toasts@;
            let toast: Toast = self.toasts.pop().unwrap();
            proof {
                reveal(Seq::filter);
                assert(before.drop_last() =~= self.toasts@);
                assert(before.last() == toast);
                assert(self.toasts@ =~= input.take(self.toasts@.len() as int));
            }
            if toast.id != id {
                proof {
                    assert(before.filter(pred) == self.toasts@.filter(pred).push(toast));
                    assert(self.toasts@.filter(pred).push(toast) + kept@ =~= self.toasts@.filter(
                        pred,
                    ) + kept@.insert(0, toast));
                }
                kept.insert(0, toast);
            } else {
                proof {
                    assert(before.filter(pred) == self.toasts@.filter(pred));
                }
            }
        }
        proof {
            assert(self.toasts@.filter(pred) =~= Seq::<Toast>::empty());
            assert(input.filter(pred) =~= kept@);
        }
        self.toasts = kept;
    }

    /// Removes all notifications.
    pub fn dismiss_all(&mut self)
        ensures
            final(self).next_id == old(self).next_id,
            final(self).toasts@ == Seq::<Toast>::empty(),
    {
        self.toasts.clear();
    }
}

} // verus!
