use rent_tracker::codec::{parse_money_cents, store_from_json, store_to_json};
use rent_tracker::entry::Entry;
use rent_tracker::fields::Fields;
use rent_tracker::store::Store;

fn entry(name: &str, link: &str) -> Entry {
    Entry::new(
        String::from(name),
        2,
        1,
        50_000,
        30_000,
        5_000,
        2_500,
        100_000,
        String::from(link),
    )
}

#[test]
fn written_document_is_exact() {
    let st = Store::from_parts(2, vec![entry("A", "http://x")]);
    let json = store_to_json(&st);
    assert_eq!(
        json,
        "{\"properties\":{\"petcount\":2},\"rentdata\":{\"A\":{\"beds\":2,\"baths\":1,\
         \"deposit\":500.00,\"petdeposit\":300.00,\"petmonthly\":50.00,\
         \"parkingmonthly\":25.00,\"monthlyrent\":1000.00,\"link\":\"http://x\"}}}"
    );
}

#[test]
fn empty_store_writes_both_sections() {
    let st = Store::new();
    let json = store_to_json(&st);
    assert_eq!(json, "{\"properties\":{\"petcount\":2},\"rentdata\":{}}");
}

#[test]
fn round_trip_preserves_inputs() {
    let st = Store::from_parts(3, vec![
        entry("First Property", "http://one.test/?q=1&r=2"),
        entry("second", ""),
    ]);
    let json = store_to_json(&st);
    let back = store_from_json(json.as_str(), 2).unwrap();
    assert_eq!(back.pet_count(), 3);
    assert_eq!(back.len(), 2);
    let snap = back.load_snapshot();
    let first = snap.iter().find(|e| e.is(&String::from("first property"))).unwrap();
    assert_eq!(first.get_link(), "http://one.test/?q=1&r=2");
    assert_eq!(first.get_i8(Fields::Beds), Some(2));
    assert_eq!(first.get_money(Fields::Deposit), Some(50_000));
    assert_eq!(first.get_money(Fields::MonthlyRent), Some(100_000));
    // derived fields are recomputed with the loaded pet count
    assert_eq!(first.get_money(Fields::TotalRent), Some(12 * 117_500));
}

#[test]
fn round_trip_escapes_text() {
    let name = "Quo\"te\\back";
    let link = "tab\there\nand line";
    let st = Store::from_parts(2, vec![entry(name, link)]);
    let json = store_to_json(&st);
    let back = store_from_json(json.as_str(), 2).unwrap();
    let snap = back.load_snapshot();
    assert_eq!(snap.len(), 1);
    assert_eq!(snap[0].get_name(), name);
    assert_eq!(snap[0].get_link(), link);
}

#[test]
fn round_trip_negative_money() {
    let e = Entry::new(String::from("n"), 0, 0, -12_345, 0, 0, 0, -1, String::new());
    let st = Store::from_parts(2, vec![e]);
    let back = store_from_json(store_to_json(&st).as_str(), 2).unwrap();
    let snap = back.load_snapshot();
    assert_eq!(snap[0].get_money(Fields::Deposit), Some(-12_345));
    assert_eq!(snap[0].get_money(Fields::MonthlyRent), Some(-1));
}

#[test]
fn empty_object_loads_empty_store() {
    let st = store_from_json("{}", 2).unwrap();
    assert_eq!(st.len(), 0);
    assert_eq!(st.pet_count(), 2);
    assert!(!st.dirty());
}

#[test]
fn record_missing_baths_is_skipped() {
    let json = "{\"properties\":{\"petcount\":2},\"rentdata\":{\
        \"bad\":{\"beds\":1,\"deposit\":1.00,\"petdeposit\":0.00,\"petmonthly\":0.00,\
        \"parkingmonthly\":0.00,\"monthlyrent\":900.00,\"link\":\"x\"},\
        \"good\":{\"beds\":1,\"baths\":1,\"deposit\":1.00,\"petdeposit\":0.00,\
        \"petmonthly\":0.00,\"parkingmonthly\":0.00,\"monthlyrent\":900.00,\"link\":\"y\"}}}";
    let st = store_from_json(json, 2).unwrap();
    assert_eq!(st.len(), 1);
    let snap = st.load_snapshot();
    assert_eq!(snap[0].get_name(), "good");
}

#[test]
fn integer_money_form_is_accepted() {
    let json = "{\"properties\":{\"petcount\":2},\"rentdata\":{\
        \"a\":{\"beds\":1,\"baths\":1,\"deposit\":500,\"petdeposit\":0,\"petmonthly\":0,\
        \"parkingmonthly\":0,\"monthlyrent\":1000,\"link\":\"\"}}}";
    let st = store_from_json(json, 2).unwrap();
    let snap = st.load_snapshot();
    assert_eq!(snap[0].get_money(Fields::Deposit), Some(50_000));
    assert_eq!(snap[0].get_money(Fields::MonthlyRent), Some(100_000));
}

#[test]
fn fraction_digits_beyond_cents_are_truncated() {
    let json = "{\"properties\":{\"petcount\":2},\"rentdata\":{\
        \"a\":{\"beds\":1,\"baths\":1,\"deposit\":1.239,\"petdeposit\":0.5,\"petmonthly\":0,\
        \"parkingmonthly\":0,\"monthlyrent\":1000,\"link\":\"\"}}}";
    let st = store_from_json(json, 2).unwrap();
    let snap = st.load_snapshot();
    assert_eq!(snap[0].get_money(Fields::Deposit), Some(123));
    assert_eq!(snap[0].get_money(Fields::PetDeposit), Some(50));
}

#[test]
fn malformed_pet_count_keeps_fallback() {
    let json = "{\"properties\":{\"petcount\":\"two\"},\"rentdata\":{}}";
    let st = store_from_json(json, 4).unwrap();
    assert_eq!(st.pet_count(), 4);
    let json2 = "{\"properties\":{\"petcount\":2.5},\"rentdata\":{}}";
    let st2 = store_from_json(json2, 1).unwrap();
    assert_eq!(st2.pet_count(), 1);
}

#[test]
fn beds_out_of_range_skips_record() {
    let json = "{\"properties\":{\"petcount\":2},\"rentdata\":{\
        \"a\":{\"beds\":200,\"baths\":1,\"deposit\":0,\"petdeposit\":0,\"petmonthly\":0,\
        \"parkingmonthly\":0,\"monthlyrent\":0,\"link\":\"\"}}}";
    let st = store_from_json(json, 2).unwrap();
    assert_eq!(st.len(), 0);
}

#[test]
fn malformed_documents_load_nothing() {
    assert!(store_from_json("", 2).is_none());
    assert!(store_from_json("not json", 2).is_none());
    assert!(store_from_json("{\"properties\":", 2).is_none());
    assert!(store_from_json("{ }", 2).is_none());
    assert!(store_from_json("{\"rentdata\":{}}", 2).is_none());
    assert!(store_from_json("{\"properties\":{},\"rentdata\":{}}x", 2).is_none());
}

#[test]
fn properties_without_pet_count_keep_fallback() {
    let json = "{\"properties\":{\"other\":1},\"rentdata\":{}}";
    let st = store_from_json(json, 7).unwrap();
    assert_eq!(st.pet_count(), 7);
}

#[test]
fn unknown_record_keys_are_ignored() {
    let json = "{\"properties\":{\"petcount\":2},\"rentdata\":{\
        \"a\":{\"beds\":1,\"baths\":1,\"deposit\":0,\"petdeposit\":0,\"petmonthly\":0,\
        \"parkingmonthly\":0,\"monthlyrent\":0,\"extra\":\"zzz\",\"link\":\"kept\"}}}";
    let st = store_from_json(json, 2).unwrap();
    let snap = st.load_snapshot();
    assert_eq!(snap.len(), 1);
    assert_eq!(snap[0].get_link(), "kept");
}

#[test]
fn duplicate_record_key_keeps_last_value() {
    let json = "{\"properties\":{\"petcount\":2},\"rentdata\":{\
        \"a\":{\"beds\":1,\"beds\":3,\"baths\":1,\"deposit\":0,\"petdeposit\":0,\
        \"petmonthly\":0,\"parkingmonthly\":0,\"monthlyrent\":0,\"link\":\"\"}}}";
    let st = store_from_json(json, 2).unwrap();
    let snap = st.load_snapshot();
    assert_eq!(snap[0].get_i8(Fields::Beds), Some(3));
}

#[test]
fn unicode_escape_reads_control_characters() {
    let json = "{\"properties\":{\"petcount\":2},\"rentdata\":{\
        \"a\":{\"beds\":1,\"baths\":1,\"deposit\":0,\"petdeposit\":0,\"petmonthly\":0,\
        \"parkingmonthly\":0,\"monthlyrent\":0,\"link\":\"a\\u001fb\"}}}";
    let st = store_from_json(json, 2).unwrap();
    let snap = st.load_snapshot();
    assert_eq!(snap[0].get_link(), "a\u{1f}b");
}

#[test]
fn parse_money_accepts_document_number_syntax() {
    assert_eq!(parse_money_cents("1000"), Some(100_000));
    assert_eq!(parse_money_cents("1000.25"), Some(100_025));
    assert_eq!(parse_money_cents("-2.5"), Some(-250));
    assert_eq!(parse_money_cents("0.00"), Some(0));
    assert_eq!(parse_money_cents("0.129"), Some(12));
}

#[test]
fn parse_money_rejects_bad_input() {
    assert_eq!(parse_money_cents(""), None);
    assert_eq!(parse_money_cents("abc"), None);
    assert_eq!(parse_money_cents("1."), None);
    assert_eq!(parse_money_cents(".5"), None);
    assert_eq!(parse_money_cents("1,5"), None);
    assert_eq!(parse_money_cents("12 "), None);
    assert_eq!(parse_money_cents("99999999999999999999"), None);
}

#[test]
fn save_marks_nothing_saving_is_callers_job() {
    let mut st = Store::new();
    st.insert_default();
    assert!(st.dirty());
    let _json = store_to_json(&st);
    assert!(st.dirty());
    st.mark_saved();
    assert!(!st.dirty());
}
