use doc_read::error::{ExtractError, Field};
use doc_read::stream::{
    begins_with_bytes, get_body, get_element, get_first_table, get_table_row, read_cell_text,
    read_header_info, read_row_first_cell_text, read_run_text, read_run_text_until,
    read_sectiong_info, read_to_info_table, read_to_sectiong_table, read_to_text_starting_with,
    same_bytes, TEXT_STARTING_WITH,
};
use quick_xml::Reader;

fn reader(xml: &[u8]) -> Reader<&[u8]> {
    let mut r = Reader::from_reader(xml);
    r.config_mut().trim_text(true);
    r
}

fn cell(text: &str) -> String {
    format!("<w:tc><w:tcPr/><w:p><w:r><w:rPr/><w:t>{}</w:t></w:r></w:p></w:tc>", text)
}

fn row(cells: &[&str]) -> String {
    let mut s = String::from("<w:tr>");
    for c in cells {
        s.push_str(&cell(c));
    }
    s.push_str("</w:tr>");
    s
}

fn document(rows: &[&[&str]]) -> String {
    let mut s = String::from(
        "<?xml version=\"1.0\" encoding=\"UTF-8\"?>\n<w:document xmlns:w=\"x\">\n  <w:body><w:p><w:r><w:t>Report</w:t></w:r></w:p><w:tbl>",
    );
    for r in rows {
        s.push_str(&row(r));
    }
    s.push_str("</w:tbl></w:body></w:document>");
    s
}

#[test]
fn bytes_are_compared_one_by_one() {
    assert!(same_bytes(b"w:tbl", b"w:tbl"));
    assert!(!same_bytes(b"w:tbl", b"w:tr"));
    assert!(!same_bytes(b"w:t", b"w:tr"));
    assert!(begins_with_bytes(b"SECTION G: x", b"SECTION G:"));
    assert!(begins_with_bytes(b"abc", b""));
    assert!(!begins_with_bytes(b"SECTION", b"SECTION G:"));
    assert!(!begins_with_bytes(b"SECTION F: x", b"SECTION G:"));
}

#[test]
fn get_element_stops_behind_the_start_tag() {
    let xml = b"<a><w:tr><b/><w:t>first</w:t></w:tr><w:tr><w:t>second</w:t></w:tr></a>";
    let mut r = reader(xml);
    assert_eq!(get_element(b"w:tr", &mut r), Ok(()));
    assert_eq!(get_element(b"w:tr", &mut r), Ok(()));
    assert_eq!(get_element(b"w:t", &mut r), Ok(()));
    assert_eq!(get_element(b"w:t", &mut r), Err(ExtractError::ElementNotFound));
    assert_eq!(get_element(b"a", &mut r), Err(ExtractError::ElementNotFound));
}

#[test]
fn empty_elements_are_no_start_tags() {
    let mut r = reader(b"<a><w:t/><w:t>x</w:t></a>");
    assert_eq!(read_to_text_starting_with(b"x", &mut r), Ok(()));
    let mut r = reader(b"<a><w:tbl/></a>");
    assert_eq!(get_first_table(&mut r), Err(ExtractError::ElementNotFound));
}

#[test]
fn broken_markup_is_reported() {
    let mut r = reader(b"<a><b></c><w:tr>");
    assert_eq!(get_element(b"w:tr", &mut r), Err(ExtractError::Markup));
    let mut r = reader(b"<a></b>");
    assert_eq!(get_table_row(&mut r), Err(ExtractError::Markup));
    let mut r = reader(b"<w:r><w:t></x>");
    assert_eq!(read_run_text(&mut r), Err(ExtractError::Markup));
}

#[test]
fn body_behind_declaration_and_root() {
    let mut r = reader(b"<?xml version=\"1.0\"?><w:document><w:body><w:tbl>");
    assert_eq!(get_body(&mut r), Ok(()));
    assert_eq!(get_first_table(&mut r), Ok(()));
}

#[test]
fn body_is_not_looked_for_behind_other_things() {
    let mut r = reader(b"<w:document>text<w:body>");
    assert_eq!(get_body(&mut r), Err(ExtractError::UnexpectedEvent));
    let mut r = reader(b"<w:document></w:document><w:body>");
    assert_eq!(get_body(&mut r), Err(ExtractError::UnexpectedEvent));
    let mut r = reader(b"<w:document><other>");
    assert_eq!(get_body(&mut r), Err(ExtractError::UnexpectedEvent));
    let mut r = reader(b"");
    assert_eq!(get_body(&mut r), Err(ExtractError::UnexpectedEvent));
    let mut r = reader(b"<w:document></x>");
    assert_eq!(get_body(&mut r), Err(ExtractError::Markup));
}

#[test]
fn info_table_is_the_first_table_of_the_body() {
    let xml = document(&[&["Province", "Gauteng"]]);
    let mut r = reader(xml.as_bytes());
    assert_eq!(read_to_info_table(&mut r), Ok(()));
    assert_eq!(read_row_first_cell_text(&mut r), Ok("Province".to_string()));
    assert_eq!(read_cell_text(&mut r), Ok("Gauteng".to_string()));
    assert_eq!(read_cell_text(&mut r), Err(ExtractError::ElementNotFound));
    let mut r = reader(b"<w:document><w:body><w:p/></w:body></w:document>");
    assert_eq!(read_to_info_table(&mut r), Err(ExtractError::ElementNotFound));
    let mut r = reader(b"<w:document>x<w:body><w:tbl>");
    assert_eq!(read_to_info_table(&mut r), Err(ExtractError::UnexpectedEvent));
}

#[test]
fn run_text_is_the_text_behind_the_tag() {
    let mut r = reader(b"<w:p><w:r><w:t>West Coast</w:t></w:r><w:r><w:t></w:t></w:r><w:r><w:t>\xc3\xa9t\xc3\xa9</w:t></w:r></w:p>");
    assert_eq!(read_run_text(&mut r), Ok("West Coast".to_string()));
    assert_eq!(read_run_text(&mut r), Ok(String::new()));
    assert_eq!(read_run_text(&mut r), Ok("été".to_string()));
    assert_eq!(read_run_text(&mut r), Err(ExtractError::ElementNotFound));
}

#[test]
fn run_text_must_be_text() {
    let mut r = reader(b"<w:r><w:t><w:x>inner</w:x></w:t></w:r>");
    assert_eq!(read_run_text(&mut r), Err(ExtractError::UnexpectedEvent));
    let mut r = reader(b"<w:r><w:t>");
    assert_eq!(read_run_text(&mut r), Err(ExtractError::UnexpectedEvent));
    let mut r = reader(b"<w:r><w:t>\xff\xfe</w:t></w:r>");
    assert_eq!(read_run_text(&mut r), Err(ExtractError::InvalidText));
}

#[test]
fn text_starting_with_a_prefix() {
    let xml = b"<a><w:t>Intro</w:t><w:t></w:t><w:t>SECTION F: before</w:t><w:t>SECTION G: closing</w:t><w:tbl><w:tr>";
    let mut r = reader(xml);
    assert_eq!(read_to_text_starting_with(TEXT_STARTING_WITH.as_bytes(), &mut r), Ok(()));
    assert_eq!(get_first_table(&mut r), Ok(()));
    let mut r = reader(xml);
    assert_eq!(read_to_sectiong_table(&mut r), Ok(()));
    assert_eq!(get_table_row(&mut r), Ok(()));
    let mut r = reader(xml);
    assert_eq!(read_to_text_starting_with(b"SECTION H:", &mut r), Err(ExtractError::ElementNotFound));
    let mut r = reader(b"<a><w:t><b>x</b></w:t>");
    assert_eq!(read_to_text_starting_with(b"x", &mut r), Err(ExtractError::UnexpectedEvent));
    let mut r = reader(b"<a><w:t>");
    assert_eq!(read_to_text_starting_with(b"x", &mut r), Err(ExtractError::UnexpectedEvent));
}

#[test]
fn run_texts_up_to_a_stop() {
    let xml = b"<p><w:r><w:t>one </w:t></w:r><w:r><w:t>two</w:t></w:r><w:r><w:t>the END here</w:t></w:r><w:r><w:t>after</w:t></w:r></p>";
    let mut r = reader(xml);
    assert_eq!(read_run_text_until("END", &mut r), Ok("onetwo".to_string()));
    assert_eq!(read_run_text(&mut r), Ok("after".to_string()));
    let mut r = reader(xml);
    assert_eq!(read_run_text_until("one", &mut r), Ok(String::new()));
    let mut r = reader(xml);
    assert_eq!(read_run_text_until("never", &mut r), Err(ExtractError::ElementNotFound));
}

#[test]
fn header_with_all_four_fields() {
    let xml = document(&[
        &["Province", "Western Cape"],
        &["District/Region", "West Coast"],
        &["School", "Test High"],
        &["Subject", "Physics"],
        &["Date", "today"],
    ]);
    let mut r = reader(xml.as_bytes());
    assert_eq!(read_to_info_table(&mut r), Ok(()));
    let h = read_header_info(&mut r).unwrap();
    assert_eq!(h.province, "Western Cape");
    assert_eq!(h.district, "West Coast");
    assert_eq!(h.school, "Test High");
    assert_eq!(h.subject, Some("Physics".to_string()));
    assert_eq!(read_row_first_cell_text(&mut r), Ok("Date".to_string()));
}

#[test]
fn header_with_labels_side_by_side() {
    let xml = document(&[
        &["Province", "Limpopo", "District", "Vhembe"],
        &["Subject", "History", "School", "Hill High"],
    ]);
    let mut r = reader(xml.as_bytes());
    assert_eq!(read_to_info_table(&mut r), Ok(()));
    let h = read_header_info(&mut r).unwrap();
    assert_eq!(h.province, "Limpopo");
    assert_eq!(h.district, "Vhembe");
    assert_eq!(h.school, "Hill High");
    assert_eq!(h.subject, Some("History".to_string()));
}

#[test]
fn header_without_subject_after_fourteen_rounds() {
    let mut rows: Vec<&[&str]> = vec![
        &["Province", "Gauteng"],
        &["District", "Tshwane"],
        &["School", "Park High"],
        &["Moderator", "N. N."],
    ];
    for _ in 0..12 {
        rows.push(&["filler", "text"]);
    }
    rows.push(&["left", "over"]);
    let xml = document(&rows);
    let mut r = reader(xml.as_bytes());
    assert_eq!(read_to_info_table(&mut r), Ok(()));
    let h = read_header_info(&mut r).unwrap();
    assert_eq!(h.province, "Gauteng");
    assert_eq!(h.district, "Tshwane");
    assert_eq!(h.school, "Park High");
    assert_eq!(h.subject, None);
    assert_eq!(read_row_first_cell_text(&mut r), Ok("left".to_string()));
}

#[test]
fn header_scan_gives_up_after_fifteen_rounds() {
    let mut rows: Vec<&[&str]> = vec![&["Province", "Gauteng"], &["x", "y"]];
    for _ in 0..20 {
        rows.push(&["filler", "text"]);
    }
    let xml = document(&rows);
    let mut r = reader(xml.as_bytes());
    assert_eq!(read_to_info_table(&mut r), Ok(()));
    let e = read_header_info(&mut r).unwrap_err();
    assert_eq!(e, ExtractError::MalformedScan { field: Field::District, position: 15 });
    assert_eq!(e.message(), "The scan for the fields ran too long.");
}

#[test]
fn header_scan_fails_where_the_document_ends() {
    let xml = document(&[&["Province", "Gauteng"]]);
    let mut r = reader(xml.as_bytes());
    assert_eq!(read_to_info_table(&mut r), Ok(()));
    assert_eq!(read_header_info(&mut r).unwrap_err(), ExtractError::ElementNotFound);
    let mut r = reader(b"");
    assert_eq!(read_header_info(&mut r).unwrap_err(), ExtractError::ElementNotFound);
}

fn closing(rows: &[&[&str]]) -> String {
    let mut s = String::from("<w:body><w:p><w:r><w:t>SECTION G: CLOSING</w:t></w:r></w:p><w:tbl>");
    for r in rows {
        s.push_str(&row(r));
    }
    s.push_str("</w:tbl></w:body>");
    s
}

#[test]
fn closing_section_with_both_fields() {
    let xml = closing(&[
        &["Heading", "ignored"],
        &["AREAS THAT REQUIRE INTERVENTION AND SUPPORT:", "Marking"],
        &["RECOMMENDATIONS:", "Train markers"],
    ]);
    let mut r = reader(xml.as_bytes());
    let s = read_sectiong_info(&mut r).unwrap();
    assert_eq!(s.areas_that_require_intervention_and_support, "Marking");
    assert_eq!(s.recommendations, "Train markers");
}

#[test]
fn closing_section_gives_up_after_four_rounds() {
    let xml = closing(&[
        &["AREAS THAT REQUIRE INTERVENTION AND SUPPORT:", "Marking"],
        &["a", "b"],
        &["c", "d"],
        &["e", "f"],
        &["RECOMMENDATIONS:", "too late"],
    ]);
    let mut r = reader(xml.as_bytes());
    assert_eq!(
        read_sectiong_info(&mut r).unwrap_err(),
        ExtractError::MalformedScan { field: Field::Recommendations, position: 4 }
    );
}

#[test]
fn closing_section_needs_its_heading() {
    let xml = document(&[&["RECOMMENDATIONS:", "Train markers"]]);
    let mut r = reader(xml.as_bytes());
    assert_eq!(read_sectiong_info(&mut r).unwrap_err(), ExtractError::ElementNotFound);
}
