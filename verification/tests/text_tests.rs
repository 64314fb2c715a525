use doc_read::text::{
    blank, chars_of, contains, is_whitespace, join, normalize, part_of, same_text, squeeze,
    text_of, to_lowercase, trim, trim_bounds, trim_chars,
};

fn chars(s: &str) -> Vec<char> {
    s.chars().collect()
}

fn text(v: &[char]) -> String {
    v.iter().collect()
}

#[test]
fn white_space_is_what_unicode_says() {
    let mut c = 0u32;
    while c <= 0x10FFFF {
        if let Some(ch) = char::from_u32(c) {
            assert_eq!(is_whitespace(ch), ch.is_whitespace(), "code point {:x}", c);
        }
        c += 1;
    }
}

#[test]
fn chars_of_gives_every_character() {
    assert_eq!(chars_of("héllo wörld"), chars("héllo wörld"));
    assert_eq!(chars_of(""), Vec::<char>::new());
}

#[test]
fn text_of_takes_a_range() {
    let v = chars("abcdef");
    assert_eq!(text_of(&v, 1, 4), "bcd");
    assert_eq!(text_of(&v, 0, 6), "abcdef");
    assert_eq!(text_of(&v, 3, 3), "");
}

#[test]
fn trim_drops_white_space_at_both_ends() {
    assert_eq!(trim("  Province \t\n"), "Province");
    assert_eq!(trim("\u{a0}West Coast\u{3000}"), "West Coast");
    assert_eq!(trim("a b"), "a b");
    assert_eq!(trim("   "), "");
    assert_eq!(trim(""), "");
    for s in [" x ", "\n\ny z\r\n", "no", " \u{2003}wide\u{2003} "] {
        assert_eq!(trim(s), s.trim());
    }
}

#[test]
fn trim_bounds_frame_the_kept_part() {
    assert_eq!(trim_bounds(&chars("  ab ")), (2, 4));
    assert_eq!(trim_bounds(&chars("ab")), (0, 2));
    assert_eq!(trim_bounds(&chars("    ")), (4, 4));
    assert_eq!(trim_bounds(&chars("")), (0, 0));
}

#[test]
fn lowercase_is_that_of_whole_strings() {
    assert_eq!(to_lowercase("DISTRICT"), "district");
    assert_eq!(to_lowercase("Areas Of GOOD Practice"), "areas of good practice");
    assert_eq!(to_lowercase("ÄÖÜ"), "äöü");
    assert_eq!(to_lowercase("ΟΔΟΣ"), "οδος");
}

#[test]
fn squeeze_drops_white_space_and_colons() {
    assert_eq!(text(&squeeze(&chars("a b:\tc ::"))), "abc");
    assert_eq!(text(&squeeze(&chars(" : "))), "");
    assert_eq!(text(&squeeze(&chars("plain"))), "plain");
}

#[test]
fn normal_form_is_lower_case_without_filler() {
    assert_eq!(text(&normalize("District:")), "district");
    assert_eq!(text(&normalize("  PRO VINCE : ")), "province");
    assert_eq!(text(&normalize("Areas Of Good Practice / Innovation")), "areasofgoodpractice/innovation");
    assert_eq!(text(&normalize("")), "");
}

#[test]
fn same_text_compares_characters() {
    assert!(same_text("abc", "abc"));
    assert!(!same_text("abc", "abd"));
    assert!(!same_text("abc", "ab"));
    assert!(same_text("", ""));
}

#[test]
fn parts_and_trimmed_characters() {
    assert_eq!(part_of(&chars("abcdef"), 2, 5), chars("cde"));
    assert_eq!(part_of(&chars("abc"), 1, 1), chars(""));
    assert_eq!(trim_chars(&chars(" \t a b \n")), chars("a b"));
    assert_eq!(trim_chars(&chars("   ")), chars(""));
}

#[test]
fn contains_finds_a_substring() {
    assert!(contains("SECTION G: closing", "G:"));
    assert!(contains("abc", ""));
    assert!(contains("", ""));
    assert!(contains("abc", "c"));
    assert!(!contains("abc", "cd"));
    assert!(!contains("", "a"));
}

#[test]
fn join_puts_the_separator_between() {
    let parts = vec!["x".to_string(), "filler".to_string(), "y".to_string()];
    assert_eq!(join(&parts, "\n"), "x\nfiller\ny");
    assert_eq!(join(&vec!["only".to_string()], ","), "only");
    assert_eq!(join(&Vec::new(), ","), "");
    assert_eq!(join(&vec!["".to_string(), "".to_string()], "-"), "-");
}

#[test]
fn blank_means_nothing_but_white_space() {
    assert!(blank(""));
    assert!(blank(" \t\n\u{a0}"));
    assert!(!blank(" . "));
}
