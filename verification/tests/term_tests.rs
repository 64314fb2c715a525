use doc_read::term::{deep_search_term, Term};

const DISTRICT: Term = Term::Many {
    main: "DISTRICT",
    other: &["DISTRICT:", "District", "District:", "NAME OF DISTRICT", "DISTRICT 1"],
};

const RECOMMENDATIONS: Term =
    Term::Double { main: "RECOMMENDATIONS", alt: "RECOMMENDATIONS FOR IMPROVEMENT" };

#[test]
fn main_spelling_of_each_kind() {
    assert_eq!(Term::Single("CONCLUSION").as_main(), "CONCLUSION");
    assert_eq!(RECOMMENDATIONS.as_main(), "RECOMMENDATIONS");
    assert_eq!(DISTRICT.as_main(), "DISTRICT");
    assert_eq!(DISTRICT.into_main(), "DISTRICT");
    assert_eq!(RECOMMENDATIONS.into_main(), "RECOMMENDATIONS");
}

#[test]
fn spellings_come_main_first() {
    assert_eq!(Term::Single("A").spellings(), vec!["A"]);
    assert_eq!(RECOMMENDATIONS.spellings(), vec!["RECOMMENDATIONS", "RECOMMENDATIONS FOR IMPROVEMENT"]);
    assert_eq!(
        DISTRICT.spellings(),
        vec!["DISTRICT", "DISTRICT:", "District", "District:", "NAME OF DISTRICT", "DISTRICT 1"]
    );
}

#[test]
fn is_looks_at_the_main_spelling_only() {
    assert!(DISTRICT.is("DISTRICT"));
    assert!(!DISTRICT.is("District"));
    assert!(RECOMMENDATIONS.is("RECOMMENDATIONS"));
    assert!(!RECOMMENDATIONS.is("RECOMMENDATIONS FOR IMPROVEMENT"));
    assert!(Term::Single("X").is("X"));
}

#[test]
fn exact_match_trims_and_compares() {
    assert!(DISTRICT.matches_exact("  NAME OF DISTRICT \n"));
    assert!(DISTRICT.matches_exact("District:"));
    assert!(!DISTRICT.matches_exact("district"));
    assert!(!DISTRICT.matches_exact("DISTRICT 2"));
    assert!(RECOMMENDATIONS.matches_exact("RECOMMENDATIONS FOR IMPROVEMENT"));
    assert!(!Term::Single("CONCLUSION").matches_exact("CONCLUSIONS"));
}

#[test]
fn normalized_match_absorbs_case_colon_and_spacing() {
    let t = Term::Single("DISTRICT");
    assert!(t.deep_matches("District:"));
    assert!(t.deep_matches("  d i s t r i c t  "));
    assert!(t.deep_matches("DISTRICT"));
    assert!(!t.deep_matches("DISTRICTS"));
    let areas = Term::Single("AREAS THAT REQUIRE INTERVENTION AND SUPPORT");
    assert!(areas.deep_matches("Areas that require  intervention and support:"));
    assert!(areas.deep_matches("AREASTHATREQUIREINTERVENTIONANDSUPPORT"));
    assert!(!areas.deep_matches("Areas that require support"));
    assert!(RECOMMENDATIONS.deep_matches("recommendations for improvement :"));
}

#[test]
fn matches_is_exact_or_normalized() {
    assert!(DISTRICT.matches("DISTRICT 1"));
    assert!(DISTRICT.matches("name of district"));
    assert!(!DISTRICT.matches("PROVINCE"));
    assert!(!DISTRICT.matches(""));
}

#[test]
fn deep_search_compares_normal_forms() {
    assert!(deep_search_term(" Province: ", "PROVINCE"));
    assert!(deep_search_term("PROVINCE", "Province"));
    assert!(!deep_search_term("Provinces", "PROVINCE"));
}

#[test]
fn word_starts_with_a_spelling() {
    let subject = Term::Many { main: "SUBJECT", other: &["SUBJECT:", "Subject", "Subject:"] };
    assert!(subject.word_starts_with_term("Subject: Physics"));
    assert!(subject.word_starts_with_term("   SUBJECT Physics"));
    assert!(!subject.word_starts_with_term("The Subject: Physics"));
    assert!(!subject.word_starts_with_term("subject: Physics"));
}

#[test]
fn strip_recovers_the_value() {
    let subject = Term::Many { main: "SUBJECT", other: &["SUBJECT:", "Subject", "Subject:"] };
    assert_eq!(subject.strip_term_from_word("Subject: Physics"), "Physics");
    assert_eq!(subject.strip_term_from_word("SUBJECT:   Life Sciences  "), "Life Sciences");
    assert_eq!(subject.strip_term_from_word("Subject Physics"), "Physics");
    assert_eq!(subject.strip_term_from_word("  Subject : Physics "), "Physics");
    assert_eq!(subject.strip_term_from_word("Subject:: Physics"), ": Physics");
    assert_eq!(subject.strip_term_from_word("Subject"), "");
    let school = Term::Single("School");
    assert_eq!(school.strip_term_from_word("School: Foo School"), "Foo School");
    assert_eq!(school.strip_term_from_word("  No label here "), "No label here");
    assert_eq!(school.strip_term_from_word("High School: Foo"), "High School: Foo");
    assert_eq!(
        RECOMMENDATIONS.strip_term_from_word("RECOMMENDATIONS FOR IMPROVEMENT: none"),
        "FOR IMPROVEMENT: none"
    );
}

#[test]
fn same_as_compares_spellings() {
    assert!(DISTRICT.same_as(&DISTRICT));
    assert!(!DISTRICT.same_as(&RECOMMENDATIONS));
    assert!(Term::Single("A").same_as(&Term::Single("A")));
    assert!(!Term::Single("A").same_as(&Term::Single("B")));
    assert!(!Term::Single("A").same_as(&Term::Double { main: "A", alt: "B" }));
    assert!(Term::Double { main: "A", alt: "B" }.same_as(&Term::Many { main: "A", other: &["B"] }));
}
