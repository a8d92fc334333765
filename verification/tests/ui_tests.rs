use meal_planning::auth::{is_public_path, login, require_auth, str_starts_with, AuthDecision};
use meal_planning::forms::{
    append_digits, append_number, contains_char, validate_email, validate_min_length,
    validate_number_range, validate_positive_number, validate_required,
};
use meal_planning::meal_type::MealType;
use meal_planning::ui::{
    format_meal_type, ButtonSize, ButtonVariant, ReportType, Toast, ToastContext, ToastVariant,
};

#[test]
fn required_field_must_hold_more_than_white_space() {
    assert_eq!(validate_required("x", "Name"), Ok(()));
    assert_eq!(validate_required("  x ", "Name"), Ok(()));
    assert_eq!(validate_required("", "Name"), Err("Name is required".to_string()));
    assert_eq!(validate_required(" \t\n", "Camp name"), Err("Camp name is required".to_string()));
}

#[test]
fn email_needs_an_at_sign_and_a_point() {
    assert_eq!(validate_email("a@b.c"), Ok(()));
    assert_eq!(validate_email(".@"), Ok(()));
    let message = Err("Please enter a valid email address".to_string());
    assert_eq!(validate_email("a@b"), message);
    assert_eq!(validate_email("a.b"), message);
    assert_eq!(validate_email(""), message);
    assert!(contains_char("a@b", '@'));
    assert!(!contains_char("a@b", '.'));
}

#[test]
fn min_length_counts_bytes() {
    assert_eq!(validate_min_length("abc", 3, "Password"), Ok(()));
    assert_eq!(validate_min_length("", 0, "Password"), Ok(()));
    assert_eq!(
        validate_min_length("ab", 3, "Password"),
        Err("Password must be at least 3 characters".to_string())
    );
    assert_eq!(
        validate_min_length("", 120, "Note"),
        Err("Note must be at least 120 characters".to_string())
    );
    // two characters, four bytes
    assert_eq!(validate_min_length("éé", 4, "Name"), Ok(()));
    assert_eq!(validate_min_length("éé", 5, "Name"), Err("Name must be at least 5 characters".to_string()));
}

#[test]
fn number_range_is_closed() {
    assert_eq!(validate_number_range(1, 1, 10, "Count"), Ok(()));
    assert_eq!(validate_number_range(10, 1, 10, "Count"), Ok(()));
    assert_eq!(
        validate_number_range(0, 1, 10, "Count"),
        Err("Count must be between 1 and 10".to_string())
    );
    assert_eq!(
        validate_number_range(11, -5, 10, "Count"),
        Err("Count must be between -5 and 10".to_string())
    );
    assert_eq!(
        validate_number_range(0, i32::MIN, -1, "Count"),
        Err("Count must be between -2147483648 and -1".to_string())
    );
    // an empty range accepts nothing
    assert_eq!(
        validate_number_range(5, 10, 1, "Count"),
        Err("Count must be between 10 and 1".to_string())
    );
}

#[test]
fn positive_number_accepts_zero() {
    assert_eq!(validate_positive_number(0, "Children"), Ok(()));
    assert_eq!(validate_positive_number(7, "Children"), Ok(()));
    assert_eq!(
        validate_positive_number(-1, "Children"),
        Err("Children must be a positive number".to_string())
    );
}

#[test]
fn numbers_are_written_in_base_ten() {
    for n in [0u64, 1, 9, 10, 11, 99, 100, 101, 12345, u64::MAX] {
        let mut text = String::from("n=");
        append_digits(&mut text, n);
        assert_eq!(text, format!("n={}", n));
    }
    for n in [0i64, 7, -7, 10, -10, i64::MAX, i64::MIN] {
        let mut text = String::new();
        append_number(&mut text, n);
        assert_eq!(text, n.to_string());
    }
}

#[test]
fn labels_and_classes() {
    assert_eq!(ReportType::ShoppingList.as_str(), "shopping_list");
    assert_eq!(ReportType::MealSchedule.as_str(), "meal_schedule");
    assert_eq!(ReportType::AttendanceSummary.as_str(), "attendance_summary");
    assert_eq!(ReportType::ShoppingList.display(), "Shopping List");
    assert_eq!(ReportType::MealSchedule.display(), "Meal Schedule");
    assert_eq!(ReportType::AttendanceSummary.display(), "Attendance Summary");
    assert_eq!(format_meal_type(&MealType::Breakfast), "Breakfast");
    assert_eq!(format_meal_type(&MealType::MorningSnack), "Morning Snack");
    assert_eq!(format_meal_type(&MealType::Lunch), "Lunch");
    assert_eq!(format_meal_type(&MealType::AfternoonSnack), "Afternoon Snack");
    assert_eq!(format_meal_type(&MealType::Dinner), "Dinner");
    assert_eq!(ButtonVariant::Primary.class(), "btn-primary");
    assert_eq!(ButtonVariant::Secondary.class(), "btn-secondary");
    assert_eq!(ButtonVariant::Danger.class(), "btn-danger");
    assert_eq!(ButtonSize::Small.class(), "btn-sm");
    assert_eq!(ButtonSize::Medium.class(), "");
    assert_eq!(ButtonSize::Large.class(), "btn-lg");
    assert_eq!(ToastVariant::Success.icon(), "✓");
    assert_eq!(ToastVariant::Error.icon(), "✕");
    assert_eq!(ToastVariant::Info.icon(), "ℹ");
    assert_eq!(ToastVariant::Warning.icon(), "⚠");
    assert_eq!(ToastVariant::Success.class(), "toast-success");
    assert_eq!(ToastVariant::Error.class(), "toast-error");
    assert_eq!(ToastVariant::Info.class(), "toast-info");
    assert_eq!(ToastVariant::Warning.class(), "toast-warning");
    assert_eq!(ToastVariant::Error.role(), "alert");
    assert_eq!(ToastVariant::Success.role(), "status");
    assert_eq!(ToastVariant::Info.role(), "status");
    assert_eq!(ToastVariant::Warning.role(), "status");
    assert_eq!(ToastVariant::Success.default_seconds(), 4);
    assert_eq!(ToastVariant::Error.default_seconds(), 6);
    assert_eq!(ToastVariant::Info.default_seconds(), 4);
    assert_eq!(ToastVariant::Warning.default_seconds(), 5);
}

#[test]
fn toasts_get_rising_ids_and_can_be_dismissed() {
    let mut context = ToastContext::new();
    assert_eq!(context.success("saved".to_string()), 0);
    assert_eq!(context.error("failed".to_string()), 1);
    assert_eq!(context.info("note".to_string()), 2);
    assert_eq!(context.warning("careful".to_string()), 3);
    assert_eq!(context.show_toast("stay".to_string(), ToastVariant::Info, None), 4);
    assert_eq!(context.toasts.len(), 5);
    assert_eq!(
        context.toasts[1],
        Toast { id: 1, message: "failed".to_string(), variant: ToastVariant::Error, seconds: Some(6) }
    );
    assert_eq!(context.toasts[4].seconds, None);
    context.dismiss(1);
    context.dismiss(3);
    context.dismiss(77);
    let ids: Vec<usize> = context.toasts.iter().map(|t| t.id).collect();
    assert_eq!(ids, vec![0, 2, 4]);
    assert_eq!(context.next_id, 5);
    context.dismiss_all();
    assert!(context.toasts.is_empty());
    assert_eq!(context.show_toast("again".to_string(), ToastVariant::Info, Some(1)), 5);
}

#[test]
fn toast_ids_start_again_after_the_largest() {
    let mut context = ToastContext { toasts: vec![], next_id: usize::MAX };
    assert_eq!(context.info("last".to_string()), usize::MAX);
    assert_eq!(context.info("first".to_string()), 0);
}

#[test]
fn public_pages_need_no_login() {
    for path in ["/login", "/api/login", "/api/login123", "/api/logout", "/pkg", "/pkg/app.js", "/style", "/style/main.css", "/styles"] {
        assert!(is_public_path(path), "{}", path);
        assert_eq!(require_auth(path, None), AuthDecision::Proceed);
    }
    for path in ["/", "", "/login/", "/logins", "/camps", "/api/camps", "/api/logi", "/Pkg", "login"] {
        assert!(!is_public_path(path), "{}", path);
        assert_eq!(require_auth(path, None), AuthDecision::RedirectToLogin);
        assert_eq!(require_auth(path, Some(false)), AuthDecision::RedirectToLogin);
        assert_eq!(require_auth(path, Some(true)), AuthDecision::Proceed);
    }
}

#[test]
fn starts_with_is_that_of_strings() {
    for (text, prefix) in [("", ""), ("a", ""), ("", "a"), ("abc", "ab"), ("abc", "abc"), ("abc", "abcd"), ("abc", "b"), ("šťáva", "šť"), ("šťáva", "st")] {
        assert_eq!(str_starts_with(text, prefix), text.starts_with(prefix), "{:?} {:?}", text, prefix);
    }
}

#[test]
fn login_compares_with_the_expected_password() {
    assert!(login("secret", Some("secret")));
    assert!(!login("Secret", Some("secret")));
    assert!(!login("admin123", Some("secret")));
    assert!(login("admin123", None));
    assert!(!login("", None));
    assert!(login("", Some("")));
}
