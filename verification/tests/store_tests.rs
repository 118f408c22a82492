use rent_tracker::entry::Entry;
use rent_tracker::fields::Fields;
use rent_tracker::store::Store;

fn entry(name: &str, beds: i8, rent: i64) -> Entry {
    Entry::new(String::from(name), beds, 1, 0, 0, 0, 0, rent, String::new())
}

fn store3() -> Store {
    Store::from_parts(2, vec![entry("Cara", 1, 1000), entry("Alpha", 1, 3000), entry(
        "beta", 0, 2000,
    )])
}

#[test]
fn new_store_is_empty() {
    let st = Store::new();
    assert_eq!(st.len(), 0);
    assert_eq!(st.pet_count(), 2);
    assert!(!st.dirty());
}

#[test]
fn name_uniqueness_ignores_case_only() {
    // Renaming "Alpha" to "alpha " stays allowed: the comparison folds
    // case but keeps whitespace, so "alpha " is a distinct name.
    let st = store3();
    assert!(!st.is_name_unique(&String::from("alpha")));
    assert!(!st.is_name_unique(&String::from("ALPHA")));
    assert!(st.is_name_unique(&String::from("alpha ")));
    assert!(st.is_name_unique(&String::from("delta")));
}

#[test]
fn rename_first_match() {
    let mut st = store3();
    st.rename(&String::from("ALPHA"), String::from("alpha "));
    assert!(st.is_name_unique(&String::from("Alpha")));
    assert!(!st.is_name_unique(&String::from("ALPHA ")));
    assert!(st.dirty());
}

#[test]
fn rename_absent_is_noop() {
    let mut st = store3();
    st.rename(&String::from("nobody"), String::from("x"));
    assert_eq!(st.len(), 3);
    assert!(!st.dirty());
}

#[test]
fn delete_removes_first_match() {
    let mut st = store3();
    st.delete(&String::from("BETA"));
    assert_eq!(st.len(), 2);
    assert!(st.is_name_unique(&String::from("beta")));
    assert!(st.dirty());
}

#[test]
fn delete_absent_is_noop() {
    let mut st = store3();
    st.delete(&String::from("nobody"));
    assert_eq!(st.len(), 3);
    assert!(!st.dirty());
}

#[test]
fn set_money_field_recalculates() {
    let mut st = store3();
    st.set_money_field(&String::from("cara"), Fields::MonthlyRent, 100_000);
    let snap = st.load_snapshot();
    let cara = snap.iter().find(|e| e.is(&String::from("Cara"))).unwrap();
    assert_eq!(cara.get_money(Fields::MonthlyRent), Some(100_000));
    assert_eq!(cara.get_money(Fields::TotalRent), Some(12 * 100_000));
    assert!(st.dirty());
}

#[test]
fn set_int_field_updates_counts() {
    let mut st = store3();
    st.set_int_field(&String::from("beta"), Fields::Beds, 5);
    let snap = st.load_snapshot();
    let beta = snap.iter().find(|e| e.is(&String::from("beta"))).unwrap();
    assert_eq!(beta.get_i8(Fields::Beds), Some(5));
}

#[test]
fn set_link_updates_link() {
    let mut st = store3();
    st.set_link(&String::from("alpha"), String::from("http://a.test"));
    let snap = st.load_snapshot();
    let alpha = snap.iter().find(|e| e.is(&String::from("Alpha"))).unwrap();
    assert_eq!(alpha.get_link(), "http://a.test");
}

#[test]
fn set_pet_count_recomputes_all() {
    let mut st = store3();
    st.set_money_field(&String::from("cara"), Fields::PetMonthly, 5_000);
    st.set_pet_count(3);
    let snap = st.load_snapshot();
    let cara = snap.iter().find(|e| e.is(&String::from("Cara"))).unwrap();
    // total = 10.00 rent + 3 * 50.00 pets = 160.00
    assert_eq!(cara.get_money(Fields::TotalRent), Some(12 * 16_000));
    assert_eq!(st.pet_count(), 3);
}

#[test]
fn mark_saved_clears_dirty() {
    let mut st = store3();
    st.delete(&String::from("beta"));
    assert!(st.dirty());
    st.mark_saved();
    assert!(!st.dirty());
}

#[test]
fn insert_default_names_are_distinct() {
    let mut st = Store::new();
    let mut names: Vec<String> = Vec::new();
    for _ in 0..5 {
        names.push(st.insert_default());
    }
    assert_eq!(names, vec!["New_0", "New_1", "New_2", "New_3", "New_4"]);
    for i in 0..names.len() {
        for j in 0..names.len() {
            if i != j {
                assert_ne!(names[i].to_lowercase(), names[j].to_lowercase());
            }
        }
    }
    assert_eq!(st.len(), 5);
    assert!(st.dirty());
}

#[test]
fn insert_default_probes_past_taken_names() {
    let mut st = Store::from_parts(2, vec![entry("new_1", 0, 0)]);
    let name = st.insert_default();
    assert_eq!(name, "New_2");
}

#[test]
fn snapshot_sorts_by_name_case_insensitively() {
    let mut st = store3();
    st.set_sort_field(Fields::Name);
    let snap = st.load_snapshot();
    let names: Vec<String> = snap.iter().map(|e| e.get_name()).collect();
    assert_eq!(names, vec!["Alpha", "beta", "Cara"]);
}

#[test]
fn snapshot_sort_is_stable() {
    // Cara and Alpha share beds == 1; sorting by Beds keeps their
    // original relative order.
    let mut st = store3();
    st.set_sort_field(Fields::Beds);
    let snap = st.load_snapshot();
    let names: Vec<String> = snap.iter().map(|e| e.get_name()).collect();
    assert_eq!(names, vec!["beta", "Cara", "Alpha"]);
}

#[test]
fn snapshot_is_a_copy() {
    let st = store3();
    let mut snap = st.load_snapshot();
    snap.clear();
    assert_eq!(st.len(), 3);
}
