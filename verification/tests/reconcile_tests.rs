use cs_handbook::models::{Handbook, Major};
use cs_handbook::store::{Category, Store, StoreError};

fn major(title: &str, units: &[&str]) -> Major {
    Major {
        title: title.to_string(),
        units: units.iter().map(|u| u.to_string()).collect(),
    }
}

fn handbook(majors: Vec<Major>, cores: &[&str], electives: &[&str]) -> Handbook {
    Handbook {
        majors,
        cores: cores.iter().map(|u| u.to_string()).collect(),
        electives: electives.iter().map(|u| u.to_string()).collect(),
    }
}

fn state(store: &Store) -> (Vec<String>, Vec<(String, Option<String>, Category)>) {
    (
        store.majors.clone(),
        store
            .units
            .iter()
            .map(|r| (r.name.clone(), r.major_title.clone(), r.category))
            .collect(),
    )
}

#[test]
fn end_to_end_scenario() {
    let mut store = Store::new();
    let h = handbook(
        vec![major("CS", &["Algo101"])],
        &["Math101"],
        &["Art101"],
    );
    store.update_handbook(&h).unwrap();

    assert_eq!(store.majors, vec!["CS".to_string()]);
    let rows = state(&store).1;
    assert_eq!(rows.len(), 3);
    assert!(rows.contains(&("Algo101".to_string(), Some("CS".to_string()), Category::Major)));
    assert!(rows.contains(&("Math101".to_string(), None, Category::Core)));
    assert!(rows.contains(&("Art101".to_string(), None, Category::Elective)));

    // A scrape hiccup: the core list comes back empty; Math101 survives.
    let h2 = handbook(vec![major("CS", &["Algo101"])], &[], &["Art101"]);
    store.update_handbook(&h2).unwrap();
    let rows = state(&store).1;
    assert_eq!(rows.len(), 3);
    assert!(rows.contains(&("Math101".to_string(), None, Category::Core)));
}

#[test]
fn reconcile_twice_is_identical() {
    let mut store = Store::new();
    let h = handbook(
        vec![major("CS", &["Algo101", "Net201"]), major("SE", &["Req301"])],
        &["Math101", "Phys102"],
        &["Art101"],
    );
    store.update_handbook(&h).unwrap();
    let first = state(&store);
    store.update_handbook(&h).unwrap();
    let second = state(&store);
    assert_eq!(first, second);
}

#[test]
fn pruning_replaces_major_scope_exactly() {
    let mut store = Store::new();
    let h1 = handbook(vec![major("CS", &["Old1", "Kept"])], &[], &[]);
    store.update_handbook(&h1).unwrap();
    let h2 = handbook(vec![major("CS", &["Kept", "New1"])], &[], &[]);
    store.update_handbook(&h2).unwrap();

    let mut names: Vec<String> = store
        .units
        .iter()
        .filter(|r| r.major_title.as_deref() == Some("CS") && r.category == Category::Major)
        .map(|r| r.name.clone())
        .collect();
    names.sort();
    assert_eq!(names, vec!["Kept".to_string(), "New1".to_string()]);
}

#[test]
fn pruning_replaces_core_scope_exactly() {
    let mut store = Store::new();
    store
        .update_handbook(&handbook(vec![], &["A", "B"], &[]))
        .unwrap();
    store
        .update_handbook(&handbook(vec![], &["B", "C"], &[]))
        .unwrap();
    let mut names: Vec<String> = store
        .units
        .iter()
        .filter(|r| r.major_title.is_none() && r.category == Category::Core)
        .map(|r| r.name.clone())
        .collect();
    names.sort();
    assert_eq!(names, vec!["B".to_string(), "C".to_string()]);
}

#[test]
fn electives_are_never_pruned() {
    let mut store = Store::new();
    store
        .update_handbook(&handbook(vec![], &[], &["X"]))
        .unwrap();
    store
        .update_handbook(&handbook(vec![], &[], &["Y"]))
        .unwrap();
    let mut names: Vec<String> = store
        .units
        .iter()
        .filter(|r| r.category == Category::Elective)
        .map(|r| r.name.clone())
        .collect();
    names.sort();
    assert_eq!(names, vec!["X".to_string(), "Y".to_string()]);
}

#[test]
fn empty_major_list_is_no_information() {
    let mut store = Store::new();
    store
        .update_handbook(&handbook(vec![major("CS", &["Algo101"])], &[], &[]))
        .unwrap();
    store
        .update_handbook(&handbook(vec![major("CS", &[])], &[], &[]))
        .unwrap();
    let rows = state(&store).1;
    assert!(rows.contains(&("Algo101".to_string(), Some("CS".to_string()), Category::Major)));
}

#[test]
fn invalid_snapshot_leaves_store_untouched() {
    let mut store = Store::new();
    store
        .update_handbook(&handbook(vec![major("CS", &["Algo101"])], &["Math101"], &[]))
        .unwrap();
    let before = state(&store);

    // An empty unit name is malformed input: rejected before anything runs.
    let bad = handbook(vec![major("CS", &["Algo101", ""])], &["Math101"], &[]);
    let err = store.update_handbook(&bad).unwrap_err();
    assert!(matches!(err, StoreError::InvalidSnapshot));
    assert_eq!(state(&store), before);

    // An empty major title is malformed input too.
    let bad = handbook(vec![major("", &["Algo101"])], &[], &[]);
    assert!(matches!(
        store.update_handbook(&bad).unwrap_err(),
        StoreError::InvalidSnapshot
    ));
    assert_eq!(state(&store), before);

    // Two majors sharing a title are malformed input.
    let bad = handbook(vec![major("CS", &["A"]), major("CS", &["B"])], &[], &[]);
    assert!(matches!(
        store.update_handbook(&bad).unwrap_err(),
        StoreError::InvalidSnapshot
    ));
    assert_eq!(state(&store), before);
}

#[test]
fn same_name_may_live_in_several_scopes() {
    let mut store = Store::new();
    let h = handbook(vec![major("CS", &["Intro"])], &["Intro"], &["Intro"]);
    store.update_handbook(&h).unwrap();
    let rows = state(&store).1;
    assert_eq!(rows.len(), 3);
    assert!(rows.contains(&("Intro".to_string(), Some("CS".to_string()), Category::Major)));
    assert!(rows.contains(&("Intro".to_string(), None, Category::Core)));
    assert!(rows.contains(&("Intro".to_string(), None, Category::Elective)));
}

#[test]
fn error_message_text() {
    assert_eq!(StoreError::InvalidSnapshot.message(), "invalid snapshot");
    assert_eq!(
        StoreError::Serialization("boom".to_string()).message(),
        "serialization error"
    );
}
