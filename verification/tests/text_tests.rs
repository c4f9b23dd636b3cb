use musicdb::textcfg::{TextBuilder, TextBuilderParseError, TextPart};
use musicdb::textgen::{duration_string, NamedTags, SongInfo};

fn parse(s: &str) -> Result<TextBuilder, TextBuilderParseError> {
    TextBuilder::parse(s)
}

#[test]
fn plain_text_and_specials() {
    let tb = parse("Now: \\t by \\A\n\\d").unwrap();
    assert_eq!(
        tb.0,
        vec![
            TextPart::Literal("Now: ".to_string()),
            TextPart::SongTitle,
            TextPart::Literal("\u{a0}by ".to_string()),
            TextPart::ArtistName,
            TextPart::LineBreak,
            TextPart::SongDuration(false),
        ]
    );
}

#[test]
fn style_parts() {
    let tb = parse("\\s1.5;\\h0.5;\\cFF0080x").unwrap();
    assert_eq!(
        tb.0,
        vec![
            TextPart::SetScale("1.5".to_string()),
            TextPart::SetHeightAlign("0.5".to_string()),
            TextPart::SetColor(0xFF0080),
            TextPart::Literal("x".to_string()),
        ]
    );
}

#[test]
fn tag_searches_and_choice() {
    let tb = parse("%=Fav%%>Year=%%_rock%").unwrap();
    assert_eq!(
        tb.0,
        vec![
            TextPart::TagEq("Fav".to_string()),
            TextPart::TagEnd("Year=".to_string()),
            TextPart::TagContains("rock".to_string()),
        ]
    );
    let tb = parse("?\\a#yes#no#after").unwrap();
    assert_eq!(
        tb.0,
        vec![
            TextPart::If(
                TextBuilder(vec![TextPart::AlbumName]),
                TextBuilder(vec![TextPart::Literal("yes".to_string())]),
                TextBuilder(vec![TextPart::Literal("no".to_string())]),
            ),
            TextPart::Literal("after".to_string()),
        ]
    );
    // a top-level # ends the text
    assert_eq!(parse("a#b").unwrap().0, vec![TextPart::Literal("a".to_string())]);
}

#[test]
fn parse_errors() {
    assert_eq!(parse("%=abc"), Err(TextBuilderParseError::UnclosedPercent));
    assert_eq!(parse("%"), Err(TextBuilderParseError::UnclosedPercent));
    assert_eq!(parse("%xabc%"), Err(TextBuilderParseError::TagModeUnknown('x')));
    assert_eq!(parse("\\cFF"), Err(TextBuilderParseError::TooFewCharsForColor));
    assert_eq!(parse("\\cGG0000"), Err(TextBuilderParseError::ColorNotHex));
    assert_eq!(
        parse("\\sabc;"),
        Err(TextBuilderParseError::CouldntParse("abc".to_string(), "number (float)".to_string()))
    );
}

#[test]
fn error_messages() {
    assert_eq!(
        TextBuilderParseError::UnclosedPercent.message(),
        "Unclosed %: Syntax is %<mode><search>%, where <mode> is _, >, or =."
    );
    assert_eq!(
        TextBuilderParseError::TagModeUnknown('x').message(),
        "Unknown tag mode 'x': Allowed are only _, > or =."
    );
    assert_eq!(
        TextBuilderParseError::CouldntParse("a".to_string(), "b".to_string()).message(),
        "Couldn't parse value 'a' to type 'b'."
    );
    assert_eq!(TextBuilderParseError::TooFewCharsForColor.message(), "Too few chars for color: Syntax is \\cRRGGBB.");
}

#[test]
fn float_literals_as_std_parses_them() {
    for s in ["1", "1.", ".5", "-2e3", "inf", "NaN", "+0.5E-2", "infinity"] {
        assert!(s.parse::<f32>().is_ok());
        assert!(parse(&format!("\\s{s};")).is_ok(), "{s}");
    }
    for s in ["", ".", "e3", "1e", "0x1", "1.2.3", "in"] {
        assert!(s.parse::<f32>().is_err());
        assert!(parse(&format!("\\s{s};")).is_err(), "{s}");
    }
}

#[test]
fn durations() {
    assert_eq!(duration_string(65_000, false), "1:05");
    assert_eq!(duration_string(65_432, true), "1:05.0432");
    assert_eq!(duration_string(3_600_000, false), "60:00");
    assert_eq!(duration_string(0, false), "0:00");
}

fn song() -> SongInfo {
    SongInfo {
        title: "Song".to_string(),
        duration_millis: 125_000,
        tags: vec!["Fav".to_string(), "Year=1999".to_string()],
        album: Some(NamedTags { name: "Album".to_string(), tags: vec!["Genre=rock".to_string()] }),
        artist: Some(NamedTags { name: "Artist".to_string(), tags: vec!["Fav".to_string()] }),
    }
}

#[test]
fn generating_lines() {
    let tb = parse("\\t - \\a\n\\cFF0000\\A \\d").unwrap();
    let lines = tb.gen(Some(&song()));
    assert_eq!(lines.len(), 2);
    let texts: Vec<Vec<String>> = lines.iter().map(|l| l.iter().map(|s| s.text.clone()).collect()).collect();
    assert_eq!(texts, vec![vec!["Song", "\u{a0}- ", "Album"], vec!["Artist", "\u{a0}", "2:05"]]);
    assert_eq!(lines[0][0].color, 0xFFFFFF);
    assert_eq!(lines[1][0].color, 0xFF0000);
    assert_eq!(lines[0][0].scale, "1.0");
}

#[test]
fn generating_tag_lookups() {
    let tb = parse("%=Fav%|%>Year=%|%_rock%").unwrap();
    let lines = tb.gen(Some(&song()));
    let texts: Vec<String> = lines[0].iter().map(|s| s.text.clone()).collect();
    assert_eq!(texts, vec!["s", "|", "1999", "|", "Genre=rock"]);
    let none = tb.gen(None);
    let texts: Vec<String> = none[0].iter().map(|s| s.text.clone()).collect();
    assert_eq!(texts, vec!["|", "|"]);
}

#[test]
fn generating_choices() {
    let tb = parse("?\\t#has#none#").unwrap();
    assert_eq!(tb.gen(Some(&song()))[0][0].text, "has");
    assert_eq!(tb.gen(None)[0][0].text, "none");
    assert!(parse("").unwrap().gen(None).is_empty());
}

#[test]
fn from_str_parses_like_parse() {
    assert!("plain %_x% text".parse::<TextBuilder>().is_ok());
    assert!(matches!("%_unclosed".parse::<TextBuilder>(), Err(TextBuilderParseError::UnclosedPercent)));
}

#[test]
fn generated_leading_space_is_kept() {
    let mut s = song();
    s.title = " x".to_string();
    let lines = parse("\\t").unwrap().gen(Some(&s));
    assert_eq!(lines[0][0].text, "\u{a0}x");
}
