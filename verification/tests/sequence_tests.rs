use recibos::sequence::next_sequence;

fn names(list: &[&str]) -> Vec<String> {
    list.iter().map(|s| s.to_string()).collect()
}

#[test]
fn five_existing_receipts_allocate_six() {
    let listing = names(&[
        "20240101-1.pdf",
        "20240101-2.pdf",
        "20240101-3.pdf",
        "20240101-4.pdf",
        "20240101-5.pdf",
    ]);
    assert_eq!(next_sequence(&listing, "20240101"), 6);
}

#[test]
fn unrelated_date_stamp_starts_at_one() {
    let listing = names(&[
        "20240101-1.pdf",
        "20240101-2.pdf",
        "20240101-3.pdf",
        "20240101-4.pdf",
        "20240101-5.pdf",
    ]);
    assert_eq!(next_sequence(&listing, "20231231"), 1);
}

#[test]
fn empty_listing_starts_at_one() {
    let listing: Vec<String> = Vec::new();
    assert_eq!(next_sequence(&listing, "20240101"), 1);
}

#[test]
fn malformed_names_are_ignored() {
    let listing = names(&["20240101-abc.pdf", "20240101.pdf", "random.txt"]);
    assert_eq!(next_sequence(&listing, "20240101"), 1);
}

#[test]
fn malformed_names_never_raise_the_maximum() {
    let listing = names(&[
        "20240101-2.pdf",
        "20240101-abc.pdf",
        "20240101.pdf",
        "random.txt",
        "20240101-9999999999999.pdf",
    ]);
    assert_eq!(next_sequence(&listing, "20240101"), 3);
}

#[test]
fn gaps_are_tolerated() {
    let listing = names(&["20240101-1.pdf", "20240101-7.pdf", "20240101-3.pdf"]);
    assert_eq!(next_sequence(&listing, "20240101"), 8);
}

#[test]
fn other_files_of_the_day_do_not_interfere() {
    let listing = names(&["20240101-5.pdf", "20240102-9.pdf", "notes-20240101.txt"]);
    assert_eq!(next_sequence(&listing, "20240101"), 6);
}

#[test]
fn largest_parsable_number_still_advances() {
    let listing = names(&["20240101-4294967295.pdf"]);
    assert_eq!(next_sequence(&listing, "20240101"), 4294967296);
}

#[test]
fn plus_sign_parses_like_the_standard_parser() {
    let listing = names(&["20240101-+7.pdf"]);
    assert_eq!(
        next_sequence(&listing, "20240101"),
        "+7".parse::<u32>().map(|v| v as u64 + 1).unwrap_or(1)
    );
}

#[test]
fn same_listing_always_allocates_the_same_number() {
    let listing = names(&["20240101-1.pdf", "20240101-2.pdf"]);
    let first = next_sequence(&listing, "20240101");
    let second = next_sequence(&listing, "20240101");
    assert_eq!(first, 3);
    assert_eq!(first, second);
}
