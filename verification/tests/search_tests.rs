use musicdb::filter::{Filter, FilterType, GeneralData};
use musicdb::search::{score_matches, search_regex_new, SearchField};

fn no_filter() -> Filter {
    Filter { and: true, filters: vec![] }
}

fn tags(t: &[&str]) -> GeneralData {
    GeneralData { tags: t.iter().map(|s| s.to_string()).collect() }
}

#[test]
fn empty_pattern_gives_no_regex() {
    assert!(matches!(search_regex_new("", true), Ok(None)));
}

#[test]
fn invalid_pattern_is_refused() {
    assert!(search_regex_new("(", false).is_err());
    assert!(search_regex_new("[a-", true).is_err());
}

#[test]
fn valid_pattern_compiles() {
    assert!(matches!(search_regex_new("be.t", false), Ok(Some(_))));
}

#[test]
fn word_starts_after_unicode_white_space() {
    // after a no-break space, the match is a whole word
    assert_eq!(score_matches("a\u{a0}beat", &vec![(2, 6)]), 5);
    assert_eq!(score_matches("a\u{3000}beat x", &vec![(2, 6)]), 5);
    // a zero-width space is no white space
    assert_eq!(score_matches("a\u{200b}beat", &vec![(2, 6)]), 2);
}

#[test]
fn score_of_match_positions() {
    // whole name
    assert_eq!(score_matches("beat", &vec![(0, 4)]), 6);
    // start of the name
    assert_eq!(score_matches("beat it", &vec![(0, 4)]), 4);
    // whole word after a space, at the end
    assert_eq!(score_matches("beat it", &vec![(5, 7)]), 5);
    // whole word followed by a space
    assert_eq!(score_matches("a beat it", &vec![(2, 6)]), 5);
    // start of a word
    assert_eq!(score_matches("beat items", &vec![(5, 7)]), 3);
    // anywhere else
    assert_eq!(score_matches("beat", &vec![(1, 3)]), 2);
    // no match
    assert_eq!(score_matches("beat", &vec![]), 0);
    // the best match counts
    assert_eq!(score_matches("ab ab", &vec![(1, 2), (3, 5)]), 5);
}

#[test]
fn score_counts_characters_not_bytes() {
    // "é" is two bytes; the positions are characters
    assert_eq!(score_matches("é x", &vec![(2, 3)]), 5);
}

#[test]
fn field_scores_with_start_preference() {
    let f = SearchField::new("beat".to_string(), false, no_filter());
    assert!(f.is_valid());
    let gd = tags(&[]);
    assert_eq!(f.score(true, "beat", &gd), 6);
    assert_eq!(f.score(true, "Beat It", &gd), 4);
    assert_eq!(f.score(true, "the beat", &gd), 5);
    assert_eq!(f.score(true, "upbeat", &gd), 2);
    assert_eq!(f.score(true, "nothing", &gd), 0);
}

#[test]
fn field_scores_without_start_preference() {
    let f = SearchField::new("beat".to_string(), false, no_filter());
    let gd = tags(&[]);
    assert_eq!(f.score(false, "beat", &gd), 2);
    assert_eq!(f.score(false, "upbeat", &gd), 2);
    assert_eq!(f.score(false, "nothing", &gd), 0);
}

#[test]
fn case_sensitive_search() {
    let f = SearchField::new("Beat".to_string(), true, no_filter());
    let gd = tags(&[]);
    assert_eq!(f.score(true, "beat", &gd), 0);
    assert_eq!(f.score(true, "Beat", &gd), 6);
}

#[test]
fn empty_and_invalid_search_text() {
    let gd = tags(&[]);
    let empty = SearchField::new(String::new(), false, no_filter());
    assert!(!empty.is_valid());
    assert_eq!(empty.score(true, "anything", &gd), 1);
    let invalid = SearchField::new("(".to_string(), false, no_filter());
    assert!(!invalid.is_valid());
    assert_eq!(invalid.score(true, "(", &gd), 0);
}

#[test]
fn filter_hides_entries() {
    let filter = Filter { and: true, filters: vec![FilterType::TagEq("Fav".to_string())] };
    let f = SearchField::new(String::new(), false, filter);
    assert_eq!(f.score(true, "x", &tags(&["Fav"])), 1);
    assert_eq!(f.score(true, "x", &tags(&["Other"])), 0);
}

#[test]
fn set_text_keeps_filter() {
    let filter = Filter { and: false, filters: vec![FilterType::TagEq("Fav".to_string())] };
    let mut f = SearchField::new(String::new(), false, filter);
    f.set_text("x+".to_string(), false);
    assert_eq!(f.text, "x+");
    assert!(f.is_valid());
    assert_eq!(f.filter, Filter { and: false, filters: vec![FilterType::TagEq("Fav".to_string())] });
    assert_eq!(f.score(true, "xx", &tags(&["Fav"])), 6);
}

#[test]
fn field_score_finds_matches_after_wide_characters() {
    let gd = tags(&[]);
    let f = SearchField::new("beat".to_string(), false, no_filter());
    // each character before the match takes two to four bytes
    assert_eq!(f.score(true, "Ärger beat", &gd), 5);
    assert_eq!(f.score(true, "日本 beat", &gd), 5);
    assert_eq!(f.score(true, "🎵 beat 🎵", &gd), 5);
    assert_eq!(f.score(true, "日本beat", &gd), 2);
    assert_eq!(f.score(true, "beat 日本", &gd), 4);
    let g = SearchField::new("本".to_string(), false, no_filter());
    assert_eq!(g.score(true, "日本", &gd), 2);
    assert_eq!(g.score(true, "日 本", &gd), 5);
}

#[test]
fn words_are_split_by_unicode_white_space() {
    let gd = tags(&[]);
    let f = SearchField::new("beat".to_string(), false, no_filter());
    for sep in ['\t', '\n', '\u{85}', '\u{a0}', '\u{1680}', '\u{2003}', '\u{2028}', '\u{202f}', '\u{3000}'] {
        assert_eq!(f.score(true, &format!("the{sep}beat"), &gd), 5);
    }
    for sep in ['\u{200b}', '\u{180e}', '_', '-'] {
        assert_eq!(f.score(true, &format!("the{sep}beat"), &gd), 2);
    }
}

#[test]
fn word_separators_agree_with_std_white_space() {
    let gd = tags(&[]);
    let f = SearchField::new("beat".to_string(), false, no_filter());
    for c in ('\0'..='\u{3100}').chain(['\u{feff}', '\u{e000}', '\u{10ffff}']) {
        let expected = if c.is_whitespace() { 5 } else { 2 };
        assert_eq!(f.score(true, &format!("the{c}beat"), &gd), expected, "{:?}", c);
    }
}
