use recibos::auth::AuthError;
use recibos::engine::{file_name, issue, issue_now, IssueError, ReceiptRequest};
use recibos::layout::SaleLine;

fn one_line() -> Vec<SaleLine> {
    vec![SaleLine {
        id: 1,
        name: "Cafe".to_string(),
        quantity: 2,
        unit_price_cents: 350,
        subtotal_cents: 700,
    }]
}

fn request(is_day_closure: bool, password: Option<&str>, lines: Vec<SaleLine>) -> ReceiptRequest {
    ReceiptRequest {
        lines,
        total_cents: 700,
        is_day_closure,
        admin_password: password.map(|p| p.to_string()),
    }
}

#[test]
fn empty_request_is_rejected_before_any_work() {
    let req = request(false, None, Vec::new());
    let r = issue(&req, false, false, &Vec::new(), "20240101", "2024-01-01 12:00");
    match r {
        Err(e) => assert_eq!(e, IssueError::EmptyRequest),
        Ok(_) => panic!("an empty request must not issue a receipt"),
    }
}

#[test]
fn day_closure_without_privilege_or_password_is_missing_credential() {
    let req = request(true, None, one_line());
    let r = issue(&req, false, false, &Vec::new(), "20240101", "2024-01-01 12:00");
    match r {
        Err(e) => assert_eq!(e, IssueError::Auth(AuthError::MissingCredential)),
        Ok(_) => panic!("day closure must not pass without a credential"),
    }
}

#[test]
fn day_closure_with_wrong_password_is_invalid_credential() {
    let req = request(true, Some("nope"), one_line());
    let r = issue(&req, false, false, &Vec::new(), "20240101", "2024-01-01 12:00");
    match r {
        Err(e) => assert_eq!(e, IssueError::Auth(AuthError::InvalidCredential)),
        Ok(_) => panic!("a wrong password must not authorize a day closure"),
    }
}

#[test]
fn day_closure_with_admin_password_succeeds() {
    let req = request(true, Some("clave-admin"), one_line());
    let r = issue(&req, false, true, &Vec::new(), "20240101", "2024-01-01 12:00");
    let out = r.expect("a confirmed administrative password must authorize a day closure");
    assert_eq!(out.sequence, 1);
    assert_eq!(out.file_name, "20240101-1.pdf");
    assert_eq!(out.document.pages[0].spans[0].text, "Recibo cierre del dia");
}

#[test]
fn day_closure_with_session_privilege_needs_no_password() {
    let req = request(true, None, one_line());
    let r = issue(&req, true, false, &Vec::new(), "20240101", "2024-01-01 12:00");
    assert!(r.is_ok());
}

#[test]
fn customer_receipt_needs_no_authorization() {
    let req = request(false, None, one_line());
    let r = issue(&req, false, false, &Vec::new(), "20240101", "2024-01-01 12:00");
    let out = r.expect("a plain customer receipt must issue");
    assert_eq!(out.document.pages[0].spans[0].text, "Recibo cliente");
}

#[test]
fn sequence_continues_from_the_directory_listing() {
    let listing = vec!["20240101-1.pdf".to_string(), "20240101-5.pdf".to_string()];
    let req = request(false, None, one_line());
    let r = issue(&req, false, false, &listing, "20240101", "2024-01-01 12:00");
    let out = r.unwrap();
    assert_eq!(out.sequence, 6);
    assert_eq!(out.file_name, "20240101-6.pdf");
}

#[test]
fn concurrent_issues_over_one_observation_race_to_the_same_name() {
    // Two unsynchronized issuers that both observed an empty directory
    // propose the same sequence and the same file name: the scan-then-
    // write race is observable, not prevented.
    let listing: Vec<String> = Vec::new();
    let first = issue(
        &request(false, None, one_line()),
        false,
        false,
        &listing,
        "20240101",
        "2024-01-01 12:00",
    )
    .unwrap();
    let second = issue(
        &request(false, None, one_line()),
        false,
        false,
        &listing,
        "20240101",
        "2024-01-01 12:00",
    )
    .unwrap();
    assert_eq!(first.sequence, 1);
    assert_eq!(second.sequence, 1);
    assert_eq!(first.file_name, second.file_name);
}

#[test]
fn allocated_names_feed_back_into_later_allocations() {
    let mut listing: Vec<String> = Vec::new();
    for expected in 1..=4u64 {
        let out = issue(
            &request(false, None, one_line()),
            false,
            false,
            &listing,
            "20240101",
            "2024-01-01 12:00",
        )
        .unwrap();
        assert_eq!(out.sequence, expected);
        assert!(!listing.contains(&out.file_name));
        listing.push(out.file_name);
    }
}

#[test]
fn file_name_has_no_padding_and_no_leading_zeros() {
    assert_eq!(file_name("20240101", 1), "20240101-1.pdf");
    assert_eq!(file_name("20240101", 12), "20240101-12.pdf");
    assert_eq!(file_name("20241231", 105), "20241231-105.pdf");
}

#[test]
fn issue_now_rejects_an_empty_request() {
    let req = request(false, None, Vec::new());
    match issue_now(&req, false, false, &Vec::new()) {
        Err(e) => assert_eq!(e, IssueError::EmptyRequest),
        Ok(_) => panic!("an empty request must not issue a receipt"),
    }
}

#[test]
fn issue_now_stamps_the_file_name_with_the_clock() {
    let req = request(false, None, one_line());
    let out = issue_now(&req, false, false, &Vec::new()).unwrap();
    assert_eq!(out.sequence, 1);
    assert!(out.file_name.ends_with("-1.pdf"));
    // Date stamp of at least eight characters before the dash.
    assert!(out.file_name.len() >= "00000000-1.pdf".len());
}

#[test]
fn greeting_matches_the_expected_text() {
    assert_eq!(
        recibos::greet("Ana"),
        "Hello, Ana! You've been greeted from Rust!"
    );
}
