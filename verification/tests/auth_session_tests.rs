use recibos::auth::{admin_count_grants, authorize, evaluate_login, AuthError, LoginOutcome};
use recibos::inventory::{apply_purchase, apply_sale, StockError};
use recibos::session::{parse_admin_record, render_admin_record};

#[test]
fn non_privileged_request_always_passes() {
    assert_eq!(authorize(false, false, None, false), Ok(()));
    assert_eq!(authorize(false, true, None, false), Ok(()));
}

#[test]
fn session_privilege_passes_without_consulting_the_password() {
    let pw = "whatever".to_string();
    assert_eq!(authorize(true, true, None, false), Ok(()));
    assert_eq!(authorize(true, true, Some(&pw), false), Ok(()));
}

#[test]
fn missing_then_invalid_then_valid_credential() {
    let pw = "x".to_string();
    assert_eq!(authorize(true, false, None, false), Err(AuthError::MissingCredential));
    assert_eq!(authorize(true, false, Some(&pw), false), Err(AuthError::InvalidCredential));
    assert_eq!(authorize(true, false, Some(&pw), true), Ok(()));
}

#[test]
fn at_least_one_admin_match_grants() {
    assert!(!admin_count_grants(0));
    assert!(admin_count_grants(1));
    assert!(admin_count_grants(42));
    assert!(!admin_count_grants(-1));
}

#[test]
fn login_decision_covers_all_cases() {
    let supplied = "pass".to_string();
    assert_eq!(evaluate_login(None, &supplied), LoginOutcome::UserNotFound);
    assert_eq!(
        evaluate_login(Some(("other".to_string(), 1)), &supplied),
        LoginOutcome::WrongPassword
    );
    assert_eq!(
        evaluate_login(Some(("pass".to_string(), 1)), &supplied),
        LoginOutcome::Accepted { is_admin: true }
    );
    assert_eq!(
        evaluate_login(Some(("pass".to_string(), 0)), &supplied),
        LoginOutcome::Accepted { is_admin: false }
    );
    assert_eq!(
        evaluate_login(Some(("pass".to_string(), 2)), &supplied),
        LoginOutcome::Accepted { is_admin: false }
    );
}

#[test]
fn admin_record_round_trips() {
    assert_eq!(render_admin_record(true), "admin=1");
    assert_eq!(render_admin_record(false), "admin=0");
    assert_eq!(parse_admin_record("admin=1"), Some(true));
    assert_eq!(parse_admin_record("admin=0"), Some(false));
}

#[test]
fn admin_record_tolerates_surrounding_whitespace() {
    assert_eq!(parse_admin_record("admin=1\n"), Some(true));
    assert_eq!(parse_admin_record("  admin=0  "), Some(false));
    assert_eq!(parse_admin_record("admin = 1"), Some(true));
}

#[test]
fn malformed_admin_record_reads_as_unknown() {
    assert_eq!(parse_admin_record(""), None);
    assert_eq!(parse_admin_record("admin"), None);
    assert_eq!(parse_admin_record("admin=2"), None);
    assert_eq!(parse_admin_record("admin=1=0"), None);
    assert_eq!(parse_admin_record("garbage"), None);
}

#[test]
fn sale_needs_positive_quantity_and_enough_stock() {
    assert_eq!(apply_sale(10, 0), Err(StockError::NonPositiveQuantity));
    assert_eq!(apply_sale(10, -3), Err(StockError::NonPositiveQuantity));
    assert_eq!(apply_sale(2, 5), Err(StockError::InsufficientStock));
    assert_eq!(apply_sale(10, 4), Ok(6));
    assert_eq!(apply_sale(10, 10), Ok(0));
}

#[test]
fn purchase_needs_positive_quantity() {
    assert_eq!(apply_purchase(10, 0), Err(StockError::NonPositiveQuantity));
    assert_eq!(apply_purchase(10, -1), Err(StockError::NonPositiveQuantity));
    assert_eq!(apply_purchase(10, 5), Ok(15));
}
