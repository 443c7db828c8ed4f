use preiskampf_core::model::ToggleShoppingListItemOp;
use preiskampf_core::path::DetailOperations;
use preiskampf_core::strutil::{parse_usize, str_eq, str_starts_with, usize_to_string};
use preiskampf_core::view::{
    create_error_notification, create_notification, create_success_notification,
};

#[test]
fn detail_operations_vocabulary() {
    assert!(matches!(
        DetailOperations::from_string("anlegen".to_string()),
        Some(DetailOperations::Create)
    ));
    assert!(matches!(
        DetailOperations::from_string("detail".to_string()),
        Some(DetailOperations::Read)
    ));
    assert!(matches!(
        DetailOperations::from_string("update".to_string()),
        Some(DetailOperations::Update)
    ));
    assert!(matches!(
        DetailOperations::from_string("entfernen".to_string()),
        Some(DetailOperations::Delete)
    ));
    assert!(DetailOperations::from_string("42".to_string()).is_none());
    assert!(DetailOperations::from_string("Anlegen".to_string()).is_none());
    assert!(DetailOperations::from_string("".to_string()).is_none());
}

#[test]
fn detail_operations_spellings() {
    assert_eq!(DetailOperations::Create._to_string(), "anlegen".to_string());
    assert_eq!(DetailOperations::Read._to_string(), "detail".to_string());
    assert_eq!(DetailOperations::Update._to_string(), "update".to_string());
    assert_eq!(
        DetailOperations::Delete._to_string(),
        "entfernen".to_string()
    );
}

#[test]
fn toggle_op_from_number() {
    assert_eq!(
        ToggleShoppingListItemOp::from_number(0),
        ToggleShoppingListItemOp::Removed
    );
    assert_eq!(
        ToggleShoppingListItemOp::from_number(1),
        ToggleShoppingListItemOp::Added
    );
    assert_eq!(
        ToggleShoppingListItemOp::from_number(7),
        ToggleShoppingListItemOp::Unknown
    );
    assert_eq!(
        ToggleShoppingListItemOp::from_number(-1),
        ToggleShoppingListItemOp::Unknown
    );
}

#[test]
fn notification_default_messages() {
    let n = create_success_notification(None);
    assert!(n.notification.is_success);
    assert!(n.notification.is_oob_swap);
    assert_eq!(n.notification.message, "Erfolgreich gespeichert".to_string());
    assert!(n.notification.hint.is_none());

    let n = create_error_notification(None);
    assert!(!n.notification.is_success);
    assert_eq!(
        n.notification.message,
        "Ein unerwarteter Fehler ist aufgetreten".to_string()
    );
}

#[test]
fn notification_custom_messages() {
    let n = create_success_notification(Some("Liste gespeichert"));
    assert!(n.notification.is_success);
    assert_eq!(n.notification.message, "Liste gespeichert".to_string());

    let n = create_error_notification(Some("Nicht gefunden"));
    assert!(!n.notification.is_success);
    assert_eq!(n.notification.message, "Nicht gefunden".to_string());

    let n = create_notification("Hallo", true);
    assert_eq!(n.notification.message, "Hallo".to_string());
    assert!(n.notification.is_success);
}

#[test]
fn parse_usize_cases() {
    assert_eq!(parse_usize("0"), Some(0));
    assert_eq!(parse_usize("42"), Some(42));
    assert_eq!(parse_usize("+42"), Some(42));
    assert_eq!(parse_usize(""), None);
    assert_eq!(parse_usize("+"), None);
    assert_eq!(parse_usize("4 2"), None);
    assert_eq!(parse_usize("4_2"), None);
    assert_eq!(parse_usize("-1"), None);
    assert_eq!(parse_usize("007"), Some(7));
    assert_eq!(parse_usize("99999999999999999999999999"), None);
    // Matches the standard parse on the same inputs.
    assert_eq!(parse_usize("18446744073709551615"), "18446744073709551615".parse::<usize>().ok());
    assert_eq!(parse_usize("18446744073709551616"), "18446744073709551616".parse::<usize>().ok());
}

#[test]
fn usize_to_string_cases() {
    assert_eq!(usize_to_string(0), "0".to_string());
    assert_eq!(usize_to_string(7), "7".to_string());
    assert_eq!(usize_to_string(10), "10".to_string());
    assert_eq!(usize_to_string(90125), "90125".to_string());
}

#[test]
fn string_helpers() {
    assert!(str_eq("abc", "abc"));
    assert!(!str_eq("abc", "abd"));
    assert!(!str_eq("abc", "abcd"));
    assert!(str_eq("", ""));
    assert!(str_starts_with("page=2", "page="));
    assert!(!str_starts_with("xpage=2", "page="));
    assert!(!str_starts_with("page", "page="));
}
