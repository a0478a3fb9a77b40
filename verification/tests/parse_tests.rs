use cs_handbook::parse::{
    collect_first_tokens, collect_trimmed, first_token, parse_cores, parse_electives,
    parse_handbook_page, parse_majors, parse_study_structure, trimmed, HandbookPage, MajorBlock,
    ParseError, StudyStructure, TextCell,
};

fn cell(fragments: &[&str]) -> TextCell {
    TextCell {
        fragments: fragments.iter().map(|f| f.to_string()).collect(),
    }
}

fn structure(
    major_blocks: Vec<MajorBlock>,
    core_cells: Vec<TextCell>,
    elective_items: Vec<TextCell>,
) -> StudyStructure {
    StudyStructure {
        major_blocks,
        core_cells,
        elective_items,
    }
}

#[test]
fn trimming() {
    assert_eq!(trimmed("  Algo 101\t\n"), "Algo 101");
    assert_eq!(trimmed(""), "");
    assert_eq!(trimmed(" \t\r\n "), "");
    assert_eq!(trimmed("x"), "x");
}

#[test]
fn first_tokens() {
    assert_eq!(first_token("  COS10009 Introduction to Programming"), "COS10009");
    assert_eq!(first_token("COS10009"), "COS10009");
    assert_eq!(first_token("   "), "");
    assert_eq!(first_token(""), "");
}

#[test]
fn collecting_fragments() {
    let fragments = vec![" Intro ".to_string(), "  to  ".to_string(), " CS ".to_string()];
    assert_eq!(collect_trimmed(&fragments), "IntrotoCS");
    let fragments = vec![" COS10009 Intro ".to_string(), " COS10010 More ".to_string()];
    assert_eq!(collect_first_tokens(&fragments), "COS10009COS10010");
}

#[test]
fn study_structure_selection() {
    let page = HandbookPage {
        study_structures: vec![],
    };
    assert!(matches!(
        parse_study_structure(&page).unwrap_err(),
        ParseError::MissingStudyStructure
    ));

    let page = HandbookPage {
        study_structures: vec![structure(vec![], vec![], vec![])],
    };
    assert!(parse_study_structure(&page).is_ok());
}

#[test]
fn majors_from_blocks() {
    let block = MajorBlock {
        headings: vec![cell(&[" Software ", " Development "])],
        unit_cells: vec![cell(&[" COS20007 "]), cell(&["COS30043\n"])],
    };
    let s = structure(vec![block], vec![], vec![]);
    let majors = parse_majors(&s).unwrap();
    assert_eq!(majors.len(), 1);
    assert_eq!(majors[0].title, "SoftwareDevelopment");
    assert_eq!(
        majors[0].units,
        vec!["COS20007".to_string(), "COS30043".to_string()]
    );
}

#[test]
fn majors_without_heading_fail() {
    let block = MajorBlock {
        headings: vec![],
        unit_cells: vec![cell(&["COS20007"])],
    };
    let s = structure(vec![block], vec![], vec![]);
    assert!(matches!(
        parse_majors(&s).unwrap_err(),
        ParseError::MissingMajorTitle
    ));
}

#[test]
fn cores_and_electives_from_cells() {
    let s = structure(
        vec![],
        vec![cell(&[" COS10009 "]), cell(&["COS10011"])],
        vec![
            cell(&["COS30017 Software Development in Mobile"]),
            cell(&[" COS30020 Advanced Topic "]),
        ],
    );
    assert_eq!(
        parse_cores(&s).unwrap(),
        vec!["COS10009".to_string(), "COS10011".to_string()]
    );
    assert_eq!(
        parse_electives(&s).unwrap(),
        vec!["COS30017".to_string(), "COS30020".to_string()]
    );
}

#[test]
fn whole_page_to_snapshot() {
    let block = MajorBlock {
        headings: vec![cell(&["CS"])],
        unit_cells: vec![cell(&["Algo101"])],
    };
    let page = HandbookPage {
        study_structures: vec![structure(
            vec![block],
            vec![cell(&["Math101"])],
            vec![cell(&["Art101 History of Art"])],
        )],
    };
    let handbook = parse_handbook_page(&page).unwrap();
    assert_eq!(handbook.majors.len(), 1);
    assert_eq!(handbook.majors[0].title, "CS");
    assert_eq!(handbook.majors[0].units, vec!["Algo101".to_string()]);
    assert_eq!(handbook.cores, vec!["Math101".to_string()]);
    assert_eq!(handbook.electives, vec!["Art101".to_string()]);
}
