use doc_read::error::{ExtractError, Field};
use doc_read::header::{HeaderFields, HeaderTerms};
use doc_read::info::{HeaderInfo, HeaderInfoBuilder, SectionG, SectionGBuilder};
use doc_read::record::{DocType, ExtractInfo, ExtractedInfo};
use doc_read::section::section_terms;
use doc_read::tables::{first_column_contains_term, text_of_table, DocTable, DocTables};
use doc_read::term::Term;

fn row(a: &str, b: &str) -> [String; 2] {
    [a.to_string(), b.to_string()]
}

fn fields() -> HeaderFields {
    HeaderFields {
        province: "Western Cape".to_string(),
        district: "West Coast".to_string(),
        school: "Test High".to_string(),
        subject: "Physics".to_string(),
    }
}

#[test]
fn row_of_a_record() {
    let info = ExtractedInfo::assemble(
        fields(),
        vec!["none".to_string(), "".to_string(), "fine".to_string()],
        "reports/a.docx".to_string(),
    );
    let expected = vec!["Western Cape", "West Coast", "Test High", "Physics", "none", "", "fine", "reports/a.docx"];
    assert_eq!(info.as_record(), expected);
    assert_eq!(info.into_record(), expected);
}

#[test]
fn row_of_column_names() {
    assert_eq!(
        ExtractedInfo::header_record(&section_terms()),
        vec![
            "Province",
            "District",
            "School",
            "Subject",
            "IDENTIFICATION OF IRREGULARITIES",
            "AREAS OF GOOD PRACTICE / INNOVATION",
            "AREAS THAT REQUIRE INTERVENTION AND SUPPORT",
            "RECOMMENDATIONS",
            "CONCLUSION",
            "File"
        ]
    );
    assert_eq!(
        ExtractedInfo::header_record(&Vec::new()),
        vec!["Province", "District", "School", "Subject", "File"]
    );
}

#[test]
fn column_names_of_a_report_from_markup() {
    assert_eq!(
        ExtractedInfo::report_header_record(),
        vec![
            "Province",
            "District",
            "School",
            "Subject",
            "Areas That Require Intervention And Support",
            "Recommendations For Improvement",
            "File"
        ]
    );
}

#[test]
fn rows_and_names_have_the_same_width() {
    let terms = section_terms();
    let info = ExtractedInfo::assemble(fields(), vec![String::new(); terms.len()], String::new());
    assert_eq!(info.as_record().len(), ExtractedInfo::header_record(&terms).len());
}

#[test]
fn record_from_header_and_closing_section() {
    let header = HeaderInfo {
        province: "P".to_string(),
        district: "D".to_string(),
        school: "S".to_string(),
        subject: None,
    };
    let section = SectionG {
        areas_that_require_intervention_and_support: "A".to_string(),
        recommendations: "R".to_string(),
    };
    let info = ExtractedInfo::from_parts(header, section, "f.docx".to_string());
    assert_eq!(info.as_record(), vec!["P", "D", "S", "", "A", "R", "f.docx"]);
    let header = HeaderInfo {
        province: "P".to_string(),
        district: "D".to_string(),
        school: "S".to_string(),
        subject: Some("Maths".to_string()),
    };
    let section = SectionG {
        areas_that_require_intervention_and_support: String::new(),
        recommendations: String::new(),
    };
    assert_eq!(
        ExtractedInfo::from_parts(header, section, String::new()).into_record(),
        vec!["P", "D", "S", "Maths", "", "", ""]
    );
}

#[test]
fn header_builder_needs_every_field() {
    let mut b = HeaderInfoBuilder::create_empty();
    assert!(b.build().is_none());
    assert!(!b.has_core());
    b.province("P".to_string());
    b.district("D".to_string());
    assert!(!b.has_core());
    b.school("S".to_string());
    assert!(b.has_core());
    assert!(b.build().is_none());
    b.subject(None);
    let h = b.build().unwrap();
    assert_eq!((h.province.as_str(), h.district.as_str(), h.school.as_str()), ("P", "D", "S"));
    assert_eq!(h.subject, None);
    b.subject(Some("X".to_string()));
    assert_eq!(b.build().unwrap().subject, Some("X".to_string()));
}

#[test]
fn section_builder_needs_both_fields() {
    let mut b = SectionGBuilder::create_empty();
    assert!(b.build().is_none());
    b.recommendations("R".to_string());
    assert!(b.build().is_none());
    b.areas_that_require_intervention_and_support("A".to_string());
    let s = b.build().unwrap();
    assert_eq!(s.areas_that_require_intervention_and_support, "A");
    assert_eq!(s.recommendations, "R");
}

#[test]
fn fields_have_names() {
    assert_eq!(Field::Province.name(), "Province");
    assert_eq!(Field::District.name(), "District");
    assert_eq!(Field::School.name(), "School");
    assert_eq!(Field::Subject.name(), "Subject");
    assert_eq!(Field::AreasThatRequireIntervention.name(), "Areas That Require Intervention And Support");
    assert_eq!(Field::Recommendations.name(), "Recommendations For Improvement");
    let mut b = HeaderInfoBuilder::create_empty();
    assert_eq!(b.first_missing(), Field::Province);
    b.province(String::new());
    b.school(String::new());
    assert_eq!(b.first_missing(), Field::District);
    b.district(String::new());
    assert_eq!(b.first_missing(), Field::Subject);
    let mut s = SectionGBuilder::create_empty();
    assert_eq!(s.first_missing(), Field::AreasThatRequireIntervention);
    s.areas_that_require_intervention_and_support(String::new());
    assert_eq!(s.first_missing(), Field::Recommendations);
}

#[test]
fn document_kinds() {
    assert_eq!(DocType::default(), DocType::Phase2District);
    assert_ne!(DocType::default(), DocType::Oral);
}

#[test]
fn sections_as_named_fields() {
    let info = ExtractInfo {
        identification_of_irregularities: None,
        areas_that_require_intervention_and_support: "a".to_string(),
        recommendations: "r".to_string(),
        areas_of_good_practice_innovation: Some("g".to_string()),
    };
    assert_eq!(info.recommendations, "r");
    assert!(info.identification_of_irregularities.is_none());
}

#[test]
fn every_error_has_its_sentence() {
    let all = [
        ExtractError::HeaderNotFound,
        ExtractError::MalformedScan { field: Field::School, position: 15 },
        ExtractError::Markup,
        ExtractError::ElementNotFound,
        ExtractError::UnexpectedEvent,
        ExtractError::InvalidText,
    ];
    for (i, a) in all.iter().enumerate() {
        assert!(!a.message().is_empty());
        for b in &all[i + 1..] {
            assert_ne!(a.message(), b.message());
        }
    }
}

fn tables() -> DocTables {
    DocTables {
        paragraphs: vec![
            "Report of the moderator".to_string(),
            "  Subject: Physics ".to_string(),
            "Subject: Chemistry".to_string(),
        ],
        tables: vec![
            DocTable {
                heading: None,
                rows: vec![row("Province:", ""), row("PROVINCE", "Gauteng"), row("SCHOOL", "")],
            },
            DocTable {
                heading: Some("District:".to_string()),
                rows: vec![row("Name of district", "Tshwane"), row("x", "y")],
            },
            DocTable {
                heading: Some("RECOMMENDATIONS FOR IMPROVEMENT".to_string()),
                rows: vec![row("More ", "training"), row("", ""), row("", "Less marking")],
            },
        ],
    }
}

const DISTRICT: Term = Term::Many {
    main: "DISTRICT",
    other: &["DISTRICT:", "District", "District:", "NAME OF DISTRICT", "DISTRICT 1"],
};

const SUBJECT: Term = Term::Many { main: "SUBJECT", other: &["SUBJECT:", "Subject", "Subject:"] };

#[test]
fn value_from_a_column_of_labels() {
    let d = tables();
    let province = Term::Single("PROVINCE");
    assert_eq!(d.value_of(&province), "Gauteng");
    assert_eq!(province.find_term_in_column(&d.tables[0].rows), Some("Gauteng".to_string()));
    assert_eq!(Term::Single("SCHOOL").find_term_in_column(&d.tables[0].rows), None);
    assert!(first_column_contains_term(&d.tables[0].rows, &Term::Single("SCHOOL")));
    assert!(!first_column_contains_term(&d.tables[0].rows, &DISTRICT));
}

#[test]
fn value_from_a_table_under_its_heading() {
    let d = tables();
    assert_eq!(d.value_of(&DISTRICT), "Tshwane");
    let rec = Term::Double { main: "RECOMMENDATIONS", alt: "RECOMMENDATIONS FOR IMPROVEMENT" };
    assert_eq!(d.value_of(&rec), "More \ntraining\nLess marking");
    assert_eq!(text_of_table(&d.tables[1].rows), "Name of district\nTshwane\nx\ny");
    assert_eq!(d.tables[2].answer(&DISTRICT), None);
    assert_eq!(d.tables[1].answer(&DISTRICT), Some("Tshwane".to_string()));
}

#[test]
fn value_from_a_paragraph_as_fallback() {
    let d = tables();
    assert_eq!(d.value_of(&SUBJECT), "Physics");
    assert_eq!(d.find_in_paragraphs(&SUBJECT), Some("Physics".to_string()));
    assert_eq!(d.find_in_paragraphs(&DISTRICT), None);
    assert_eq!(d.value_of(&Term::Single("SCHOOL")), "");
    assert_eq!(DocTables::default().value_of(&SUBJECT), "");
}

#[test]
fn record_of_headed_tables() {
    let terms = HeaderTerms {
        province: Term::Single("PROVINCE"),
        district: DISTRICT,
        school: Term::Single("SCHOOL"),
        subject: SUBJECT,
    };
    let sections = vec![
        Term::Double { main: "RECOMMENDATIONS", alt: "RECOMMENDATIONS FOR IMPROVEMENT" },
        Term::Single("CONCLUSION"),
    ];
    let info = tables().try_into_extracted(&terms, &sections, "a.docx".to_string());
    assert_eq!(
        info.as_record(),
        vec!["Gauteng", "Tshwane", "", "Physics", "More \ntraining\nLess marking", "", "a.docx"]
    );
}

#[test]
fn table_under_its_heading_gives_its_cells_line_by_line() {
    let d = DocTables {
        paragraphs: vec![],
        tables: vec![DocTable {
            heading: Some("CONCLUSION".to_string()),
            rows: vec![row("All good", "Really"), row("Yes", "")],
        }],
    };
    assert_eq!(d.value_of(&Term::Single("CONCLUSION")), "All good\nReally\nYes");
    let info = d.try_into_extracted(
        &HeaderTerms::spelled_out(),
        &doc_read::section::headed_section_terms(),
        "f.docx".to_string(),
    );
    let record = info.as_record();
    assert_eq!(record.len(), 11);
    assert_eq!(record[9], "All good\nReally\nYes");
    assert_eq!(record[10], "f.docx");
}

#[test]
fn a_missing_subject_is_an_empty_column() {
    let header = HeaderInfo {
        province: "Western Cape".to_string(),
        district: "West Coast".to_string(),
        school: "Test High".to_string(),
        subject: None,
    };
    let section = SectionG {
        areas_that_require_intervention_and_support: "Areas".to_string(),
        recommendations: "Recs".to_string(),
    };
    let record = ExtractedInfo::from_parts(header, section, "a.docx".to_string()).as_record();
    assert_eq!(record[3], "");
    assert_eq!(record, vec!["Western Cape", "West Coast", "Test High", "", "Areas", "Recs", "a.docx"]);
}
