use musicdb::filter::{Filter, FilterType};
use musicdb::filter_panel::{editor_rows, presets_for_tab, FilterRow, TagField};
use musicdb::gui_model::GuiConfig;

fn sample() -> Filter {
    Filter {
        and: true,
        filters: vec![
            FilterType::TagEq("Fav".to_string()),
            FilterType::Not(Filter {
                and: false,
                filters: vec![
                    FilterType::TagStartsWith("Genre=".to_string()),
                    FilterType::TagWithValueInt("Year=".to_string(), 1990, 2000),
                ],
            }),
        ],
    }
}

#[test]
fn rows_of_a_filter() {
    let rows = editor_rows(&sample());
    assert_eq!(rows.len(), 6);
    assert!(matches!(&rows[0], FilterRow::Joiner { depth: 0, path, and: true } if path.is_empty()));
    assert!(matches!(&rows[1], FilterRow::TagEq { depth: 1, path, value } if *path == vec![0] && value == "Fav"));
    assert!(matches!(&rows[2], FilterRow::Not { depth: 1 }));
    assert!(matches!(&rows[3], FilterRow::Joiner { depth: 1, path, and: false } if *path == vec![1]));
    assert!(matches!(&rows[4], FilterRow::TagStartsWith { depth: 2, path, value } if *path == vec![1, 0] && value == "Genre="));
    assert!(matches!(&rows[5], FilterRow::TagWithValueInt { depth: 2, path, value, min: 1990, max: 2000 } if *path == vec![1, 1] && value == "Year="));
}

#[test]
fn single_condition_has_no_switch() {
    let f = Filter { and: true, filters: vec![FilterType::TagEq("x".to_string())] };
    let rows = editor_rows(&f);
    assert_eq!(rows.len(), 1);
    assert!(matches!(&rows[0], FilterRow::TagEq { depth: 1, .. }));
    assert!(editor_rows(&Filter { and: true, filters: vec![] }).is_empty());
}

#[test]
fn toggle_switches() {
    let mut f = sample();
    assert!(f.toggle_and_at(&[]));
    assert!(!f.and);
    assert!(f.toggle_and_at(&[1]));
    assert!(matches!(&f.filters[1], FilterType::Not(g) if g.and));
    assert!(!f.toggle_and_at(&[0]));
    assert!(!f.toggle_and_at(&[7]));
    assert!(f.toggle_and_at(&[]));
    assert!(f.toggle_and_at(&[1]));
    assert_eq!(f, sample());
}

#[test]
fn edit_tag_texts() {
    let mut f = sample();
    assert!(f.set_tag_text(&[0], TagField::Eq, "Best".to_string()));
    assert_eq!(f.filters[0], FilterType::TagEq("Best".to_string()));
    assert!(!f.set_tag_text(&[0], TagField::StartsWith, "no".to_string()));
    assert!(f.set_tag_text(&[1, 0], TagField::StartsWith, "Mood=".to_string()));
    assert!(f.set_tag_text(&[1, 1], TagField::ValueInt, "Bpm=".to_string()));
    match &f.filters[1] {
        FilterType::Not(g) => {
            assert_eq!(g.filters[0], FilterType::TagStartsWith("Mood=".to_string()));
            assert_eq!(g.filters[1], FilterType::TagWithValueInt("Bpm=".to_string(), 1990, 2000));
        },
        _ => panic!(),
    }
    assert!(!f.set_tag_text(&[3], TagField::Eq, "x".to_string()));
}

#[test]
fn edit_value_bounds() {
    let mut f = sample();
    assert!(f.set_value_bound(&[1, 1], "1980", false));
    assert!(f.set_value_bound(&[1, 1], "-5", true));
    assert!(!f.set_value_bound(&[1, 1], "12a", true));
    assert!(!f.set_value_bound(&[1, 1], "99999999999", true));
    assert!(!f.set_value_bound(&[0], "1", true));
    match &f.filters[1] {
        FilterType::Not(g) => assert_eq!(g.filters[1], FilterType::TagWithValueInt("Year=".to_string(), 1980, -5)),
        _ => panic!(),
    }
}

#[test]
fn clear_and_presets() {
    let mut f = sample();
    f.clear_filters();
    assert!(f.filters.is_empty());
    assert!(f.and);
    f.add_preset(&FilterType::TagEq("Fav".to_string()));
    f.add_preset(&FilterType::Nested(Filter { and: false, filters: vec![FilterType::TagEq("a".to_string())] }));
    assert_eq!(f.filters.len(), 2);
    assert_eq!(f.filters[1], FilterType::Nested(Filter { and: false, filters: vec![FilterType::TagEq("a".to_string())] }));
    assert_eq!(sample().duplicate(), sample());
}

#[test]
fn presets_by_tab() {
    let cfg = GuiConfig::from_text_section(Some((Some("a"), Some("b"), Some("c"), Some("d")))).ok().unwrap();
    assert_eq!(presets_for_tab(&cfg, 0).len(), 2);
    assert_eq!(presets_for_tab(&cfg, 1)[0].0, "Fav");
    assert_eq!(presets_for_tab(&cfg, 2)[1].0, "Year");
    assert_eq!(presets_for_tab(&cfg, 5)[0].1, FilterType::TagEq("Fav".to_string()));
}
