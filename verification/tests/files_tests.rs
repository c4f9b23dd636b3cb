use musicdb::custom_files::{
    entries_dir_name, normalize_tag_to_str, normalize_to_file_path_component_for_custom_files,
    normalized_str_to_tag, tags_file_name,
};
use musicdb::fill::{
    choose_cover, export_tags_text, gen_internals, image_ext_tags, image_extension, push_tags, push_unique, srcfile_count_tag,
    srcfile_value_tag, srcfile_year_tag, unsrcfile, CoverCandidate, OnceNewline,
};

fn v(t: &[&str]) -> Vec<String> {
    t.iter().map(|s| s.to_string()).collect()
}

#[test]
fn tag_escaping() {
    assert_eq!(normalize_tag_to_str("a\\b\nc\rd"), "a\\Sb\\nc\\rd");
    assert_eq!(normalized_str_to_tag("a\\Sb\\nc\\rd"), "a\\b\nc\rd");
    assert_eq!(normalized_str_to_tag("x\ny\r"), "xy");
    for t in ["plain", "back\\slash", "line\nbreak", "\\n literal", "\\S\\\\"] {
        assert_eq!(normalized_str_to_tag(&normalize_tag_to_str(t)), t);
    }
}

#[test]
fn path_components() {
    assert_eq!(normalize_to_file_path_component_for_custom_files("AC/DC"), "AC%sDC");
    assert_eq!(normalize_to_file_path_component_for_custom_files("100%\t\\\0\r\n"), "100%p%t%S%0%r%n");
}

#[test]
fn custom_file_names() {
    assert_eq!(tags_file_name("AC/DC"), "AC%sDC.tags");
    assert_eq!(entries_dir_name("AC/DC"), "AC%sDC.d");
    assert_eq!(tags_file_name(""), ".tags");
    assert_ne!(tags_file_name("a/b"), tags_file_name("a%sb"));
}

#[test]
fn artist_image_tags() {
    assert_eq!(image_ext_tags("png"), v(&["SRCFILE:ImageExt=png", "ImageExt=png"]));
}

#[test]
fn once_newline() {
    let mut n = OnceNewline::new();
    assert!(n.now());
    assert!(!n.now());
    assert!(!n.now());
}

#[test]
fn source_file_tags() {
    assert_eq!(srcfile_count_tag("TrackNr", Some(3), Some(12)), Some("SRCFILE:TrackNr=3/12".to_string()));
    assert_eq!(srcfile_count_tag("DiscNr", Some(1), None), Some("SRCFILE:DiscNr=1".to_string()));
    assert_eq!(srcfile_count_tag("TrackNr", None, Some(9)), Some("SRCFILE:TrackNr=?/9".to_string()));
    assert_eq!(srcfile_count_tag("TrackNr", None, None), None);
    assert_eq!(srcfile_year_tag(1999), "SRCFILE:Year=1999");
    assert_eq!(srcfile_year_tag(-44), "SRCFILE:Year=-44");
    assert_eq!(srcfile_value_tag("Genre", "Rock"), "SRCFILE:Genre=Rock");
}

#[test]
fn merging_tag_files() {
    let mut tags = v(&["a"]);
    push_tags("a\nb\\nc\r\nb\n", &mut tags);
    assert_eq!(tags, v(&["a", "b\nc", "b"]));
    push_unique(&mut tags, "a".to_string());
    push_unique(&mut tags, "z".to_string());
    assert_eq!(tags, v(&["a", "b\nc", "b", "z"]));
}

#[test]
fn unsrcfile_adds_values() {
    let mut tags = v(&["SRCFILE:Year=1999", "Year=1999", "SRCFILE:Genre=Pop"]);
    unsrcfile(&mut tags);
    assert_eq!(tags, v(&["SRCFILE:Year=1999", "Year=1999", "SRCFILE:Genre=Pop", "Genre=Pop"]));
}

#[test]
fn exported_tag_file() {
    let tags = v(&["SRCFILE:Year=1999", "Year=1999", "Mine", "line\nbreak"]);
    let internals = gen_internals(Some(5), Some(7));
    assert_eq!(internals, v(&["id=5", "cover=7"]));
    assert_eq!(export_tags_text(&tags, &internals), "Mine\nline\\nbreak\n\\!id=5\n\\!cover=7\n");
    assert_eq!(gen_internals(None, Some(1)), v(&["cover=1"]));
    assert!(gen_internals(None, None).is_empty());
    assert_eq!(export_tags_text(&vec![], &vec![]), "");
}

#[test]
fn image_extensions() {
    assert!(image_extension("png"));
    assert!(image_extension("JPG"));
    assert!(image_extension("jPeG"));
    assert!(!image_extension("gif"));
    assert!(!image_extension("png "));
}

#[test]
fn cover_choice() {
    let c = |is_file: bool, ext: Option<&str>, size: u64| CoverCandidate { is_file, extension: ext.map(|e| e.to_string()), size };
    let r = choose_cover(&vec![c(true, Some("txt"), 100), c(true, Some("jpg"), 10), c(false, Some("png"), 99), c(true, Some("PNG"), 20), c(true, Some("png"), 20)]);
    assert_eq!(r.chosen, Some(3));
    assert!(r.multiple);
    let r = choose_cover(&vec![c(true, Some("jpeg"), 10)]);
    assert_eq!(r.chosen, Some(0));
    assert!(!r.multiple);
    let r = choose_cover(&vec![c(true, None, 10)]);
    assert_eq!(r.chosen, None);
    assert!(!r.multiple);
}
