use cs_handbook::models::{Handbook, Major};
use cs_handbook::store::{Category, Store};

fn example_store() -> Store {
    // Units {("Intro", null, core), ("Intro", "CS", major), ("Graphics", "CS", major)}.
    let mut store = Store::new();
    let h = Handbook {
        majors: vec![Major {
            title: "CS".to_string(),
            units: vec!["Intro".to_string(), "Graphics".to_string()],
        }],
        cores: vec!["Intro".to_string()],
        electives: vec![],
    };
    store.update_handbook(&h).unwrap();
    store
}

#[test]
fn filter_by_major() {
    let store = example_store();
    let cs = "CS".to_string();
    let names = store.get_units(Some(&cs), None, None);
    assert_eq!(names, vec!["Intro".to_string(), "Graphics".to_string()]);
}

#[test]
fn filter_by_category() {
    let store = example_store();
    let names = store.get_units(None, Some(Category::Core), None);
    assert_eq!(names, vec!["Intro".to_string()]);
}

#[test]
fn filter_by_name_substring() {
    let store = example_store();
    let pat = "raph".to_string();
    let names = store.get_units(None, None, Some(&pat));
    assert_eq!(names, vec!["Graphics".to_string()]);
}

#[test]
fn name_filter_ignores_ascii_case() {
    let store = example_store();
    let pat = "RAPH".to_string();
    let names = store.get_units(None, None, Some(&pat));
    assert_eq!(names, vec!["Graphics".to_string()]);
}

#[test]
fn no_filters_returns_everything() {
    let store = example_store();
    let names = store.get_units(None, None, None);
    assert_eq!(
        names,
        vec![
            "Intro".to_string(),
            "Graphics".to_string(),
            "Intro".to_string()
        ]
    );
}

#[test]
fn all_filters_conjoin() {
    let store = example_store();
    let cs = "CS".to_string();
    let pat = "intro".to_string();
    let names = store.get_units(Some(&cs), Some(Category::Major), Some(&pat));
    assert_eq!(names, vec!["Intro".to_string()]);
    let names = store.get_units(Some(&cs), Some(Category::Core), Some(&pat));
    assert!(names.is_empty());
}

#[test]
fn units_by_major() {
    let store = example_store();
    let names = store.get_units_by_major(&"CS".to_string());
    assert_eq!(names, vec!["Intro".to_string(), "Graphics".to_string()]);
    assert!(store.get_units_by_major(&"SE".to_string()).is_empty());
}

#[test]
fn units_by_codename_returns_every_scope() {
    let store = example_store();
    let rows = store.get_units_by_codename(&"Intro".to_string());
    assert_eq!(rows.len(), 2);
    assert_eq!(rows[0].name, "Intro");
    assert_eq!(rows[0].major_title, Some("CS".to_string()));
    assert_eq!(rows[0].category, Category::Major);
    assert_eq!(rows[1].name, "Intro");
    assert_eq!(rows[1].major_title, None);
    assert_eq!(rows[1].category, Category::Core);
    assert!(store.get_units_by_codename(&"Nope".to_string()).is_empty());
}

#[test]
fn units_by_major_json_body() {
    let store = example_store();
    let body = store.units_by_major_json(&"CS".to_string()).unwrap();
    assert_eq!(body, "[\"Intro\",\"Graphics\"]");
    let empty = store.units_by_major_json(&"SE".to_string()).unwrap();
    assert_eq!(empty, "[]");
}
