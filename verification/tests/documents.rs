use doc_read::block::{Block, DocBlocks};
use doc_read::error::ExtractError;
use doc_read::header::{locate_header, read_head, HeaderTerms};
use doc_read::section::{locate_sections, read_body_info};
use doc_read::term::Term;

fn row(a: &str, b: &str) -> [String; 2] {
    [a.to_string(), b.to_string()]
}

#[test]
fn header_of_plain_table() {
    let blocks = DocBlocks {
        blocks: vec![Block::Table(vec![
            row("PROVINCE", "Western Cape"),
            row("DISTRICT", "West Coast"),
            row("SCHOOL", "Test High"),
            row("SUBJECT", "Physics"),
        ])],
    };
    let fields = locate_header(&blocks, &HeaderTerms::standard()).unwrap();
    assert_eq!(fields.province, "Western Cape");
    assert_eq!(fields.district, "West Coast");
    assert_eq!(fields.school, "Test High");
    assert_eq!(fields.subject, "Physics");
}

#[test]
fn section_behind_its_heading() {
    let blocks = DocBlocks {
        blocks: vec![
            Block::Paragraph("CONCLUSION".to_string()),
            Block::Table(vec![row("All good", "")]),
        ],
    };
    let values = locate_sections(&blocks, &vec![Term::Single("CONCLUSION")]);
    assert_eq!(values, vec!["All good".to_string()]);
}

#[test]
fn header_label_with_colon_and_mixed_case() {
    let blocks = DocBlocks {
        blocks: vec![Block::Table(vec![
            row("Province:", "Gauteng"),
            row("District:", "Tshwane"),
        ])],
    };
    let fields = read_head(&blocks).unwrap();
    assert_eq!(fields.province, "Gauteng");
    assert_eq!(fields.district, "Tshwane");
    assert_eq!(fields.school, "");
    assert_eq!(fields.subject, "");
}

#[test]
fn sections_that_share_a_table() {
    let blocks = DocBlocks {
        blocks: vec![Block::Table(vec![
            row("AREAS THAT REQUIRE INTERVENTION AND SUPPORT", "x"),
            row("filler", "y"),
            row("RECOMMENDATIONS", "z"),
        ])],
    };
    let values = read_body_info(&blocks);
    assert_eq!(values, vec!["", "", "x\nfiller\ny", "z", ""]);
}

#[test]
fn document_without_header_table() {
    let blocks = DocBlocks {
        blocks: vec![
            Block::Paragraph("PROVINCE".to_string()),
            Block::Table(vec![row("a", "b")]),
        ],
    };
    assert_eq!(read_head(&blocks).unwrap_err(), ExtractError::HeaderNotFound);
}
