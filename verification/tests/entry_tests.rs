use core::cmp::Ordering;
use rent_tracker::entry::Entry;
use rent_tracker::fields::Fields;

fn sample() -> Entry {
    Entry::new(
        String::from("Sample"),
        2,
        1,
        50_000,
        30_000,
        5_000,
        2_500,
        100_000,
        String::from("http://example.test"),
    )
}

#[test]
fn scenario_two_pets() {
    // monthly_rent 1000.00, pet_monthly 50.00, parking_monthly 25.00, pet_count 2:
    // total 1125.00; splits 587.50 / 425.00 / 356.25, exact in twelfth-cents.
    let mut e = sample();
    e.calculate(2);
    assert_eq!(e.get_money(Fields::TotalRent), Some(12 * 112_500));
    assert_eq!(e.get_money(Fields::RentFor2), Some(12 * 58_750));
    assert_eq!(e.get_money(Fields::RentFor3), Some(12 * 42_500));
    assert_eq!(e.get_money(Fields::RentFor4), Some(12 * 35_625));
}

#[test]
fn new_computes_for_zero_pets() {
    let e = sample();
    // total = 1000.00 + 0 * 50.00 + 25.00 = 1025.00
    assert_eq!(e.get_money(Fields::TotalRent), Some(12 * 102_500));
    assert_eq!(e.get_money(Fields::RentFor2), Some(12 * 53_750));
}

#[test]
fn default_is_placeholder() {
    let e = Entry::default();
    assert_eq!(e.get_name(), "Enter name here");
    assert_eq!(e.get_link(), "");
    assert_eq!(e.get_i8(Fields::Beds), Some(0));
    assert_eq!(e.get_money(Fields::MonthlyRent), Some(0));
    assert_eq!(e.get_money(Fields::TotalRent), Some(0));
}

#[test]
fn typed_getters_reject_other_columns() {
    let e = sample();
    assert_eq!(e.get_i8(Fields::Name), None);
    assert_eq!(e.get_i8(Fields::Deposit), None);
    assert_eq!(e.get_i8(Fields::TotalRent), None);
    assert_eq!(e.get_money(Fields::Name), None);
    assert_eq!(e.get_money(Fields::Beds), None);
    assert_eq!(e.get_i8(Fields::Beds), Some(2));
    assert_eq!(e.get_i8(Fields::Baths), Some(1));
    assert_eq!(e.get_money(Fields::Deposit), Some(50_000));
}

#[test]
fn typed_setters_ignore_other_columns() {
    let mut e = sample();
    e.set_i8(Fields::Deposit, 9);
    assert_eq!(e.get_money(Fields::Deposit), Some(50_000));
    e.set_money(Fields::Beds, 9);
    assert_eq!(e.get_i8(Fields::Beds), Some(2));
    e.set_money(Fields::TotalRent, 9);
    let tr = e.get_money(Fields::TotalRent);
    assert_eq!(tr, Some(12 * 102_500));
    e.set_i8(Fields::Beds, 3);
    assert_eq!(e.get_i8(Fields::Beds), Some(3));
    e.set_money(Fields::MonthlyRent, 120_000);
    assert_eq!(e.get_money(Fields::MonthlyRent), Some(120_000));
}

#[test]
fn identity_is_case_insensitive() {
    let e = sample();
    assert!(e.is(&String::from("sample")));
    assert!(e.is(&String::from("SAMPLE")));
    assert!(!e.is(&String::from("sample ")));
    assert!(!e.is(&String::from("samples")));
}

#[test]
fn cmp_name_folds_case() {
    let a = Entry::new(String::from("alpha"), 0, 0, 0, 0, 0, 0, 0, String::new());
    let b = Entry::new(String::from("Beta"), 0, 0, 0, 0, 0, 0, 0, String::new());
    let a2 = Entry::new(String::from("ALPHA"), 0, 0, 0, 0, 0, 0, 0, String::new());
    assert_eq!(a.cmp(&b, Fields::Name), Ordering::Less);
    assert_eq!(b.cmp(&a, Fields::Name), Ordering::Greater);
    assert_eq!(a.cmp(&a2, Fields::Name), Ordering::Equal);
}

#[test]
fn cmp_numeric_columns() {
    let mut a = sample();
    let mut b = sample();
    a.set_i8(Fields::Beds, 1);
    b.set_i8(Fields::Beds, 2);
    assert_eq!(a.cmp(&b, Fields::Beds), Ordering::Less);
    assert_eq!(a.cmp(&b, Fields::Baths), Ordering::Equal);
    a.set_money(Fields::Deposit, -100);
    b.set_money(Fields::Deposit, 0);
    assert_eq!(b.cmp(&a, Fields::Deposit), Ordering::Greater);
    a.calculate(1);
    b.calculate(1);
    assert_eq!(a.cmp(&b, Fields::TotalRent), Ordering::Equal);
}

#[test]
fn set_name_and_link() {
    let mut e = sample();
    e.set_name(String::from("Other"));
    e.set_link(String::from("http://other.test"));
    assert_eq!(e.get_name(), "Other");
    assert_eq!(e.get_link(), "http://other.test");
}
