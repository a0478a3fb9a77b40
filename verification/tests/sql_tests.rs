use cs_handbook::models::{Handbook, Major};
use cs_handbook::sql::{
    category_from_text, category_text, create_tables_if_not_exists, delete_stale_units,
    get_units_query, insert_major, insert_unit, update_handbook_statements, BindValue,
    SqlStatement,
};
use cs_handbook::store::{Category, StoreError};

fn text_bind(b: &BindValue) -> Option<&str> {
    match b {
        BindValue::Text(t) => Some(t.as_str()),
        BindValue::Null => None,
    }
}

fn binds(stmt: &SqlStatement) -> Vec<Option<&str>> {
    stmt.binds.iter().map(text_bind).collect()
}

#[test]
fn schema_statements() {
    let stmts = create_tables_if_not_exists();
    assert_eq!(stmts.len(), 2);
    assert_eq!(
        stmts[0].text,
        "CREATE TABLE IF NOT EXISTS majors (title TEXT PRIMARY KEY NOT NULL)"
    );
    assert_eq!(
        stmts[1].text,
        "CREATE TABLE IF NOT EXISTS units (id INTEGER PRIMARY KEY AUTOINCREMENT, name TEXT NOT NULL, type TEXT NOT NULL, major_title TEXT REFERENCES majors(title), UNIQUE(name, major_title, type))"
    );
    assert!(stmts[0].binds.is_empty());
    assert!(stmts[1].binds.is_empty());
}

#[test]
fn insert_statements() {
    let stmt = insert_major(&"CS".to_string());
    assert_eq!(
        stmt.text,
        "INSERT INTO majors (title) VALUES (?) ON CONFLICT(title) DO NOTHING"
    );
    assert_eq!(binds(&stmt), vec![Some("CS")]);

    let title = "CS".to_string();
    let stmt = insert_unit(&"Algo101".to_string(), Some(&title), Category::Major);
    assert_eq!(
        stmt.text,
        "INSERT INTO units (name, type, major_title) SELECT ?1, ?2, ?3 WHERE NOT EXISTS (SELECT 1 FROM units WHERE name = ?1 AND type = ?2 AND major_title IS ?3)"
    );
    assert_eq!(binds(&stmt), vec![Some("Algo101"), Some("major"), Some("CS")]);

    let stmt = insert_unit(&"Math101".to_string(), None, Category::Core);
    assert_eq!(binds(&stmt), vec![Some("Math101"), Some("core"), None]);
}

#[test]
fn delete_statement_uses_placeholders_only() {
    let title = "CS".to_string();
    let names = vec!["A".to_string(), "B".to_string(), "C".to_string()];
    let stmt = delete_stale_units(Some(&title), Category::Major, &names);
    assert_eq!(
        stmt.text,
        "DELETE FROM units WHERE major_title IS ? AND type = ? AND name NOT IN (?,?,?)"
    );
    assert_eq!(
        binds(&stmt),
        vec![Some("CS"), Some("major"), Some("A"), Some("B"), Some("C")]
    );

    let names = vec!["O'Hara".to_string()];
    let stmt = delete_stale_units(None, Category::Core, &names);
    assert_eq!(
        stmt.text,
        "DELETE FROM units WHERE major_title IS ? AND type = ? AND name NOT IN (?)"
    );
    // A name with a quote travels as data, never as text.
    assert_eq!(binds(&stmt), vec![None, Some("core"), Some("O'Hara")]);
}

#[test]
fn query_skeleton_follows_present_filters() {
    let stmt = get_units_query(None, None, None);
    assert_eq!(stmt.text, "SELECT name FROM units");
    assert!(stmt.binds.is_empty());

    let m = "CS".to_string();
    let stmt = get_units_query(Some(&m), None, None);
    assert_eq!(stmt.text, "SELECT name FROM units WHERE major_title = ?");
    assert_eq!(binds(&stmt), vec![Some("CS")]);

    let stmt = get_units_query(None, Some(Category::Elective), None);
    assert_eq!(stmt.text, "SELECT name FROM units WHERE type = ?");
    assert_eq!(binds(&stmt), vec![Some("elective")]);

    let n = "raph".to_string();
    let stmt = get_units_query(None, None, Some(&n));
    assert_eq!(
        stmt.text,
        "SELECT name FROM units WHERE name LIKE ? ESCAPE '\\'"
    );
    assert_eq!(binds(&stmt), vec![Some("%raph%")]);

    let stmt = get_units_query(Some(&m), Some(Category::Major), Some(&n));
    assert_eq!(
        stmt.text,
        "SELECT name FROM units WHERE major_title = ? AND type = ? AND name LIKE ? ESCAPE '\\'"
    );
    assert_eq!(binds(&stmt), vec![Some("CS"), Some("major"), Some("%raph%")]);

    let stmt = get_units_query(None, Some(Category::Core), Some(&n));
    assert_eq!(
        stmt.text,
        "SELECT name FROM units WHERE type = ? AND name LIKE ? ESCAPE '\\'"
    );
}

#[test]
fn like_metacharacters_are_escaped() {
    // A wildcard or escape character inside the filter value matches
    // itself, never acting as a wildcard.
    let n = "100%".to_string();
    let stmt = get_units_query(None, None, Some(&n));
    assert_eq!(binds(&stmt), vec![Some("%100\\%%")]);

    let n = "under_score".to_string();
    let stmt = get_units_query(None, None, Some(&n));
    assert_eq!(binds(&stmt), vec![Some("%under\\_score%")]);

    let n = "back\\slash".to_string();
    let stmt = get_units_query(None, None, Some(&n));
    assert_eq!(binds(&stmt), vec![Some("%back\\\\slash%")]);
}

#[test]
fn reconcile_plan_statement_order() {
    let h = Handbook {
        majors: vec![Major {
            title: "CS".to_string(),
            units: vec!["Algo101".to_string()],
        }],
        cores: vec!["Math101".to_string()],
        electives: vec!["Art101".to_string()],
    };
    let stmts = update_handbook_statements(&h).unwrap();
    // insert CS; insert Algo101; prune CS scope; insert Math101; prune core
    // scope; insert Art101 — and no elective prune.
    assert_eq!(stmts.len(), 6);
    assert!(stmts[0].text.starts_with("INSERT INTO majors"));
    assert!(stmts[1].text.starts_with("INSERT INTO units"));
    assert!(stmts[2].text.starts_with("DELETE FROM units"));
    assert!(stmts[3].text.starts_with("INSERT INTO units"));
    assert!(stmts[4].text.starts_with("DELETE FROM units"));
    assert!(stmts[5].text.starts_with("INSERT INTO units"));
    assert_eq!(binds(&stmts[5]), vec![Some("Art101"), Some("elective"), None]);
}

#[test]
fn reconcile_plan_skips_prune_for_empty_lists() {
    let h = Handbook {
        majors: vec![Major {
            title: "CS".to_string(),
            units: vec![],
        }],
        cores: vec![],
        electives: vec![],
    };
    let stmts = update_handbook_statements(&h).unwrap();
    assert_eq!(stmts.len(), 1);
    assert!(stmts[0].text.starts_with("INSERT INTO majors"));
}

#[test]
fn reconcile_plan_rejects_malformed_snapshots() {
    let h = Handbook {
        majors: vec![],
        cores: vec!["".to_string()],
        electives: vec![],
    };
    assert!(matches!(
        update_handbook_statements(&h).unwrap_err(),
        StoreError::InvalidSnapshot
    ));
}

#[test]
fn category_tags_round_trip() {
    for c in [Category::Major, Category::Core, Category::Elective] {
        assert_eq!(category_from_text(&category_text(c).to_string()), Some(c));
    }
    assert_eq!(category_from_text(&"corex".to_string()), None);
    assert_eq!(category_from_text(&"".to_string()), None);
}
