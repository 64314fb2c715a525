use doc_read::block::{Block, DocBlocks};
use doc_read::error::ExtractError;
use doc_read::header::{
    canonical_cell, is_exact_spelling, is_normal_spelling, locate_header, read_head, take_value,
    HeaderTerms,
};
use doc_read::term::Term;

fn row(a: &str, b: &str) -> [String; 2] {
    [a.to_string(), b.to_string()]
}

fn table(rows: &[(&str, &str)]) -> Block {
    Block::Table(rows.iter().map(|(a, b)| row(a, b)).collect())
}

fn doc(blocks: Vec<Block>) -> DocBlocks {
    DocBlocks { blocks }
}

#[test]
fn labels_in_any_spelling_give_their_values() {
    let d = doc(vec![table(&[
        ("province :", "Western Cape"),
        ("  DISTRICT/REGION", "West Coast"),
        ("S c h o o l:", "Test High"),
        ("subject", "Physics"),
    ])]);
    let f = read_head(&d).unwrap();
    assert_eq!(
        (f.province.as_str(), f.district.as_str(), f.school.as_str(), f.subject.as_str()),
        ("Western Cape", "West Coast", "Test High", "Physics")
    );
}

#[test]
fn labels_and_values_in_one_row() {
    let d = doc(vec![table(&[("PROVINCE", "Limpopo"), ("DISTRICT", "Vhembe")]), table(&[("SCHOOL", "late")])]);
    let f = read_head(&d).unwrap();
    assert_eq!(f.province, "Limpopo");
    assert_eq!(f.district, "Vhembe");
    assert_eq!(f.school, "");
    assert_eq!(f.subject, "");
}

#[test]
fn the_first_header_table_wins() {
    let d = doc(vec![
        Block::Paragraph("PROVINCE".to_string()),
        table(&[("nothing", "here")]),
        table(&[("SCHOOL", "First High")]),
        table(&[("PROVINCE", "Gauteng"), ("SCHOOL", "Second High")]),
    ]);
    let f = read_head(&d).unwrap();
    assert_eq!(f.school, "First High");
    assert_eq!(f.province, "");
}

#[test]
fn an_exact_label_beats_an_earlier_loose_one() {
    let d = doc(vec![
        table(&[("province:", "loose")]),
        table(&[("PROVINCE", "exact")]),
    ]);
    let f = read_head(&d).unwrap();
    assert_eq!(f.province, "exact");
    let loose_only = doc(vec![table(&[("x", "y")]), table(&[("province:", "loose")])]);
    assert_eq!(read_head(&loose_only).unwrap().province, "loose");
}

#[test]
fn no_header_table_is_an_error() {
    assert_eq!(read_head(&doc(vec![])).unwrap_err(), ExtractError::HeaderNotFound);
    let d = doc(vec![
        Block::Paragraph("PROVINCE".to_string()),
        Block::Paragraph("DISTRICT".to_string()),
        table(&[("Name", "Value")]),
    ]);
    assert_eq!(read_head(&d).unwrap_err(), ExtractError::HeaderNotFound);
    assert_eq!(
        ExtractError::HeaderNotFound.message(),
        "This doc does not have any of the header terms."
    );
}

#[test]
fn a_label_in_the_last_cell_has_no_value() {
    let d = doc(vec![table(&[("PROVINCE", "Free State"), ("", "SUBJECT")])]);
    let f = read_head(&d).unwrap();
    assert_eq!(f.province, "Free State");
    assert_eq!(f.subject, "");
}

#[test]
fn a_label_taken_as_a_value_is_no_label_any_more() {
    let d = doc(vec![table(&[("PROVINCE", "DISTRICT"), ("West Coast", "")])]);
    let f = read_head(&d).unwrap();
    assert_eq!(f.province, "DISTRICT");
    assert_eq!(f.district, "");
}

#[test]
fn own_header_terms_can_be_given() {
    let terms = HeaderTerms {
        province: Term::Double { main: "PROVINSIE", alt: "PROVINCE" },
        district: Term::Single("DISTRIK"),
        school: Term::Single("SKOOL"),
        subject: Term::Many { main: "VAK", other: &["SUBJECT", "Vakgebied"] },
    };
    let d = doc(vec![table(&[("Province", "Wes-Kaap"), ("Skool:", "Hoër"), ("vakgebied", "Fisika")])]);
    let f = locate_header(&d, &terms).unwrap();
    assert_eq!(f.province, "Wes-Kaap");
    assert_eq!(f.district, "");
    assert_eq!(f.school, "Hoër");
    assert_eq!(f.subject, "Fisika");
}

#[test]
fn find_table_returns_the_header_table() {
    let d = doc(vec![table(&[("a", "b")]), table(&[("District:", "x")])]);
    let terms = HeaderTerms::standard().list();
    match d.find_table_containing_one_of(&terms) {
        Some(Block::Table(rows)) => assert_eq!(rows, &vec![row("District:", "x")]),
        _ => panic!("no header table"),
    }
    assert!(doc(vec![table(&[("a", "b")])]).find_table_containing_one_of(&terms).is_none());
}

#[test]
fn spelling_tests_over_a_list_of_terms() {
    let terms = HeaderTerms::standard().list();
    assert!(is_exact_spelling(&terms, " DISTRICT/REGION "));
    assert!(!is_exact_spelling(&terms, "District"));
    assert!(is_normal_spelling(&terms, "District"));
    assert!(!is_normal_spelling(&terms, "Districts"));
}

#[test]
fn canonical_form_of_cells() {
    let terms = HeaderTerms::standard().list();
    assert_eq!(canonical_cell(&terms, &"district/region".to_string()), "DISTRICT");
    assert_eq!(canonical_cell(&terms, &" Sub ject: ".to_string()), "SUBJECT");
    assert_eq!(canonical_cell(&terms, &"West Coast".to_string()), "West Coast");
}

#[test]
fn take_value_empties_the_cell_it_takes() {
    let mut cells: Vec<String> = ["A", "1", "B", "2", "A", "3"].iter().map(|s| s.to_string()).collect();
    assert_eq!(take_value(&mut cells, "A"), "1");
    assert_eq!(cells, vec!["A", "", "B", "2", "A", "3"]);
    assert_eq!(take_value(&mut cells, "A"), "");
    assert_eq!(take_value(&mut cells, "C"), "");
    assert_eq!(take_value(&mut cells, "3"), "");
    assert_eq!(cells, vec!["A", "", "B", "2", "A", "3"]);
}
