//! The decisions of the client's user interface that do not draw: events,
//! hotkeys, key actions, and the configuration of texts and filter presets.
use vstd::prelude::*;
use crate::filter::FilterType;
use crate::textcfg::{parse_text, ParseOutcome, TextBuilder, TextBuilderParseError};

verus! {

broadcast use vstd::string::group_string_axioms;

/// Events that wake the window's event loop.
#[derive(Debug, Clone, Copy, PartialEq, Eq)]
pub enum GuiEvent {
    Refresh,
    RefreshMers,
    UpdatedQueue,
    UpdatedLibrary,
    Exit,
}

/// Elements that actions can address directly (to give them focus).
#[derive(Debug, Clone, Copy, PartialEq, Eq)]
pub enum SpecificGuiElem {
    SearchArtist,
    SearchAlbum,
    SearchSong,
}

/// Messages to the queue viewer.
#[derive(Debug, Clone, PartialEq, Eq)]
pub enum QVMsg {
    ControlFlowElementsSetFolderName(String),
}

/// Identifier of a registered key action: its position in the action list.
#[derive(Debug, Clone, Copy, PartialEq, Eq)]
pub struct KeyActionId(pub usize);

impl KeyActionId {
    pub fn get_index(&self) -> (r: usize)
        ensures
            r == self.0,
    {
        self.0
    }
}

/// The modifier keys that are held.
#[derive(Debug, Clone, Copy, PartialEq, Eq)]
pub struct Modifiers {
    pub logo: bool,
    pub alt: bool,
    pub ctrl: bool,
    pub shift: bool,
}

/// The keys that hotkeys look at; any other key is `Other`.
#[derive(Debug, Clone, Copy, PartialEq, Eq)]
pub enum Key {
    A,
    S,
    LControl,
    RControl,
    Other,
}

/// Ctrl alone (no logo, alt or shift) held, and `key` pressed.
pub open spec fn ctrl_only(m: Modifiers) -> bool {
    !m.logo && !m.alt && m.ctrl && !m.shift
}

/// Ctrl and shift (no logo or alt) held.
pub open spec fn ctrl_shift(m: Modifiers) -> bool {
    !m.logo && !m.alt && m.ctrl && m.shift
}

/// Ctrl+S deselects everything.
pub fn hotkey_deselect_all(modifiers: &Modifiers, key: Option<Key>) -> (r: bool)
    ensures
        r == (ctrl_only(*modifiers) && key == Some(Key::S)),
{
    !modifiers.logo && !modifiers.alt && modifiers.ctrl && !modifiers.shift && matches!(key, Some(Key::S))
}

/// Ctrl+A selects everything.
pub fn hotkey_select_all(modifiers: &Modifiers, key: Option<Key>) -> (r: bool)
    ensures
        r == (ctrl_only(*modifiers) && key == Some(Key::A)),
{
    !modifiers.logo && !modifiers.alt && modifiers.ctrl && !modifiers.shift && matches!(key, Some(Key::A))
}

/// Ctrl+Shift+A selects all albums.
pub fn hotkey_select_albums(modifiers: &Modifiers, key: Option<Key>) -> (r: bool)
    ensures
        r == (ctrl_shift(*modifiers) && key == Some(Key::A)),
{
    !modifiers.logo && !modifiers.alt && modifiers.ctrl && modifiers.shift && matches!(key, Some(Key::A))
}

/// Ctrl+Shift+S selects all songs.
pub fn hotkey_select_songs(modifiers: &Modifiers, key: Option<Key>) -> (r: bool)
    ensures
        r == (ctrl_shift(*modifiers) && key == Some(Key::S)),
{
    !modifiers.logo && !modifiers.alt && modifiers.ctrl && modifiers.shift && matches!(key, Some(Key::S))
}

/// Whether ctrl counts as held after a key event: a ctrl key's own event
/// decides (pressed or released), any other event leaves the modifier state.
pub fn key_watch_ctrl(modifiers: &Modifiers, down: bool, key: Option<Key>) -> (r: bool)
    ensures
        r == (if key == Some(Key::LControl) || key == Some(Key::RControl) { down } else { modifiers.ctrl }),
{
    match key {
        Some(Key::LControl) | Some(Key::RControl) => down,
        _ => modifiers.ctrl,
    }
}

/// A filter preset: its name and its condition.
pub type FilterPreset = (String, FilterType);

/// The configuration of the texts on screen and of the filter presets.
pub struct GuiConfig {
    pub status_bar_text: TextBuilder,
    pub idle_top_text: TextBuilder,
    pub idle_side1_text: TextBuilder,
    pub idle_side2_text: TextBuilder,
    pub filter_presets_song: Vec<FilterPreset>,
    pub filter_presets_album: Vec<FilterPreset>,
    pub filter_presets_artist: Vec<FilterPreset>,
}

/// Why the texts of the configuration could not be read.
#[derive(Debug, PartialEq)]
pub enum ConfigError {
    /// The configuration has no `[text]` section.
    MissingTextSection,
    /// The named value (such as `status_bar`) is missing or not a string.
    MissingText(String),
    /// The named value is not a valid text.
    BadText(String, TextBuilderParseError),
    /// The configuration text is not a TOML table.
    NotToml,
    /// No usable font: the `font` path is missing, or its file cannot be
    /// read or loaded.
    MissingFont,
}

impl ConfigError {
    /// The exit code of the client for this error.
    pub fn exit_code(&self) -> (r: i32)
        ensures
            r == 30,
    {
        30
    }
}

/// The presets every list of filter presets starts with: `Fav` (a tag equal
/// to `Fav`) and `Year` (a tag `Year=` with a value from 1990 to 2000).
pub open spec fn default_presets_spec(v: Seq<FilterPreset>) -> bool {
    &&& v.len() == 2
    &&& v[0].0@ == "Fav"@
    &&& (v[0].1 matches FilterType::TagEq(t) && t@ == "Fav"@)
    &&& v[1].0@ == "Year"@
    &&& (v[1].1 matches FilterType::TagWithValueInt(t, lo, hi) && t@ == "Year="@ && lo == 1990 && hi == 2000)
}

/// The value is present and a valid text.
pub open spec fn text_ok(x: Option<Seq<char>>) -> bool {
    x matches Some(t) && parse_text(t) is Parsed
}

/// The value is present and fails to parse with `e`.
pub open spec fn text_fails_with(x: Option<Seq<char>>, e: TextBuilderParseError) -> bool {
    x matches Some(t) && parsed_as(t, Err(e))
}

pub fn default_filter_presets() -> (r: Vec<FilterPreset>)
    ensures
        default_presets_spec(r@),
{
    let mut v: Vec<FilterPreset> = Vec::new();
    v.push(("Fav".to_string(), FilterType::TagEq("Fav".to_string())));
    v.push(("Year".to_string(), FilterType::TagWithValueInt("Year=".to_string(), 1990, 2000)));
    v
}

/// Whether `r` is what parsing `text` gives.
pub open spec fn parsed_as(text: Seq<char>, r: Result<TextBuilder, TextBuilderParseError>) -> bool {
    match parse_text(text) {
        ParseOutcome::Parsed(m, _) => r matches Ok(tb) && tb.model() == m,
        ParseOutcome::Failed(em) => r matches Err(e) && e.model() == em,
    }
}

fn parse_named(name: &str, text: Option<&str>) -> (r: Result<TextBuilder, ConfigError>)
    ensures
        match text {
            None => r matches Err(ConfigError::MissingText(n)) && n@ == name@,
            Some(t) => match parse_text(t@) {
                ParseOutcome::Parsed(m, _) => r matches Ok(tb) && tb.model() == m,
                ParseOutcome::Failed(em) => r matches Err(ConfigError::BadText(n, e)) && n@ == name@ && e.model() == em,
            },
        },
{
    match text {
        None => Err(ConfigError::MissingText(name.to_string())),
        Some(t) => match TextBuilder::parse(t) {
            Ok(tb) => Ok(tb),
            Err(e) => Err(ConfigError::BadText(name.to_string(), e)),
        },
    }
}

/// A value of the `[text]` section by its characters.
pub open spec fn str_opt_view(x: Option<&str>) -> Option<Seq<char>> {
    match x {
        Some(t) => Some(t@),
        None => None,
    }
}

/// An owned value by its characters.
pub open spec fn string_opt_view(x: Option<String>) -> Option<Seq<char>> {
    match x {
        Some(t) => Some(t@),
        None => None,
    }
}

/// The `[text]` section (if any) by the characters of its values.
pub open spec fn section_view(
    s: Option<(Option<&str>, Option<&str>, Option<&str>, Option<&str>)>,
) -> Option<(Option<Seq<char>>, Option<Seq<char>>, Option<Seq<char>>, Option<Seq<char>>)> {
    match s {
        Some((a, b, c, d)) => Some((str_opt_view(a), str_opt_view(b), str_opt_view(c), str_opt_view(d))),
        None => None,
    }
}

/// What reading the `[text]` section gives: an error for a missing section;
/// else the texts parsed in the order `status_bar`, `idle_top`,
/// `idle_side1`, `idle_side2`, the first missing or invalid one reported;
/// with all four valid, the configuration with those texts and the default
/// filter presets.
pub open spec fn text_section_result(
    section: Option<(Option<Seq<char>>, Option<Seq<char>>, Option<Seq<char>>, Option<Seq<char>>)>,
    r: Result<GuiConfig, ConfigError>,
) -> bool {
    match section {
        None => r matches Err(ConfigError::MissingTextSection),
        Some((a, b, c, d)) => match r {
            Ok(cfg) => text_ok(a) && text_ok(b) && text_ok(c) && text_ok(d)
                && parsed_as(a->0, Ok(cfg.status_bar_text))
                && parsed_as(b->0, Ok(cfg.idle_top_text))
                && parsed_as(c->0, Ok(cfg.idle_side1_text))
                && parsed_as(d->0, Ok(cfg.idle_side2_text))
                && default_presets_spec(cfg.filter_presets_song@)
                && default_presets_spec(cfg.filter_presets_album@)
                && default_presets_spec(cfg.filter_presets_artist@),
            Err(ConfigError::MissingText(n)) =>
                (a is None && n@ == "status_bar"@)
                || (text_ok(a) && b is None && n@ == "idle_top"@)
                || (text_ok(a) && text_ok(b) && c is None && n@ == "idle_side1"@)
                || (text_ok(a) && text_ok(b) && text_ok(c) && d is None && n@ == "idle_side2"@),
            Err(ConfigError::BadText(n, e)) =>
                (text_fails_with(a, e) && n@ == "status_bar"@)
                || (text_ok(a) && text_fails_with(b, e) && n@ == "idle_top"@)
                || (text_ok(a) && text_ok(b) && text_fails_with(c, e) && n@ == "idle_side1"@)
                || (text_ok(a) && text_ok(b) && text_ok(c) && text_fails_with(d, e) && n@ == "idle_side2"@),
            Err(_) => false,
        },
    }
}

/// What the client reads of a configuration text, as `str::parse::<toml::Table>`
/// parses it: `None` when the text is no TOML table; else the `font` value
/// if it is a string, and the `[text]` table if it is one, with its
/// `status_bar`, `idle_top`, `idle_side1` and `idle_side2` values, each if it
/// is a string.
pub uninterp spec fn toml_gui_values(text: Seq<char>) -> Option<(Option<Seq<char>>, Option<(Option<Seq<char>>, Option<Seq<char>>, Option<Seq<char>>, Option<Seq<char>>)>)>;

/// The values read from the configuration, by their characters.
pub open spec fn values_view(
    v: Option<(Option<String>, Option<(Option<String>, Option<String>, Option<String>, Option<String>)>)>,
) -> Option<(Option<Seq<char>>, Option<(Option<Seq<char>>, Option<Seq<char>>, Option<Seq<char>>, Option<Seq<char>>)>)> {
    match v {
        None => None,
        Some((font, section)) => Some((string_opt_view(font), match section {
            None => None,
            Some((a, b, c, d)) => Some((string_opt_view(a), string_opt_view(b), string_opt_view(c), string_opt_view(d))),
        })),
    }
}

/// `str::parse::<toml::Table>` on the configuration text, then the string
/// values the client reads from the table: `font`, and the four values of the
/// `[text]` table. The contract claims only that the result is the one
/// `toml_gui_values` names for the text.
#[verifier::external_body]
fn gui_values(text: &str) -> (r: Option<(Option<String>, Option<(Option<String>, Option<String>, Option<String>, Option<String>)>)>)
    ensures
        values_view(r) == toml_gui_values(text@),
{
    let table = text.parse::<toml::Table>().ok()?;
    let s = |v: Option<&toml::Value>| v.and_then(|v| v.as_str()).map(|v| v.to_string());
    let t = table.get("text").and_then(|v| v.as_table());
    let section = t.map(|t| (s(t.get("status_bar")), s(t.get("idle_top")), s(t.get("idle_side1")), s(t.get("idle_side2"))));
    Some((s(table.get("font")), section))
}

/// Whether `speedy2d::font::Font::new` accepts these bytes as a font.
pub uninterp spec fn font_loads(bytes: Seq<u8>) -> bool;

/// `speedy2d::font::Font::new(bytes).is_ok()`: whether the bytes load as a
/// TrueType or OpenType font. The contract claims only that the answer is
/// the one `font_loads` names for the bytes.
#[verifier::external_body]
fn font_usable(bytes: &[u8]) -> (r: bool)
    ensures
        r == font_loads(bytes@),
{
    speedy2d::font::Font::new(bytes).is_ok()
}

/// What became of the font file the configuration names.
#[derive(Debug, Clone, Copy, PartialEq, Eq)]
pub enum FontCheck {
    /// The file could not be read.
    Unreadable,
    /// The file was read but is not a usable font.
    Unloadable,
    /// The font loads.
    Loaded,
}

/// Checks the contents of the font file (`None` when it could not be read).
pub fn check_font(bytes: Option<&[u8]>) -> (r: FontCheck)
    ensures
        match bytes {
            None => r == FontCheck::Unreadable,
            Some(b) => r == (if font_loads(b@) { FontCheck::Loaded } else { FontCheck::Unloadable }),
        },
{
    match bytes {
        None => FontCheck::Unreadable,
        Some(b) => if font_usable(b) { FontCheck::Loaded } else { FontCheck::Unloadable },
    }
}

fn as_opt_str(x: &Option<String>) -> (r: Option<&str>)
    ensures
        str_opt_view(r) == string_opt_view(*x),
{
    match x {
        Some(s) => Some(s.as_str()),
        None => None,
    }
}

impl GuiConfig {
    /// Reads the configuration text as the client does: `NotToml` when it is
    /// no TOML table; else the `font` path (if it is a string) together with
    /// what reading the `[text]` section gives.
    pub fn from_config_text(text: &str) -> (r: Result<(Option<String>, Result<GuiConfig, ConfigError>), ConfigError>)
        ensures
            toml_gui_values(text@) is None ==> r matches Err(ConfigError::NotToml),
            toml_gui_values(text@) matches Some((font, section)) ==> {
                &&& r matches Ok((f, c))
                &&& string_opt_view(f) == font
                &&& text_section_result(section, c)
            },
    {
        match gui_values(text) {
            None => Err(ConfigError::NotToml),
            Some((font, section)) => {
                let sec = match &section {
                    None => None,
                    Some((a, b, c, d)) => Some((as_opt_str(a), as_opt_str(b), as_opt_str(c), as_opt_str(d))),
                };
                let config = GuiConfig::from_text_section(sec);
                Ok((font, config))
            },
        }
    }

    /// The configuration the client starts with: the texts must have been
    /// read, and then a font must have loaded (`font` is `None` when the
    /// configuration names no font path).
    pub fn require_font(config: Result<GuiConfig, ConfigError>, font: Option<FontCheck>) -> (r: Result<GuiConfig, ConfigError>)
        ensures
            config is Err ==> r == config,
            config is Ok ==> (if font == Some(FontCheck::Loaded) { r == config } else { r matches Err(ConfigError::MissingFont) }),
    {
        match config {
            Err(e) => Err(e),
            Ok(cfg) => if matches!(font, Some(FontCheck::Loaded)) { Ok(cfg) } else { Err(ConfigError::MissingFont) },
        }
    }

    /// The configuration from the values of the `[text]` section (`None`
    /// for the section when it is missing, and for each value when it is
    /// missing or not a string). The values are checked in the order
    /// `status_bar`, `idle_top`, `idle_side1`, `idle_side2`; the first
    /// problem is reported.
    pub fn from_text_section(section: Option<(Option<&str>, Option<&str>, Option<&str>, Option<&str>)>) -> (r: Result<GuiConfig, ConfigError>)
        ensures
            text_section_result(section_view(section), r),
    {
        let (a, b, c, d) = match section {
            None => return Err(ConfigError::MissingTextSection),
            Some(s) => s,
        };
        let status_bar_text = parse_named("status_bar", a)?;
        let idle_top_text = parse_named("idle_top", b)?;
        let idle_side1_text = parse_named("idle_side1", c)?;
        let idle_side2_text = parse_named("idle_side2", d)?;
        Ok(GuiConfig {
            status_bar_text,
            idle_top_text,
            idle_side1_text,
            idle_side2_text,
            filter_presets_song: default_filter_presets(),
            filter_presets_album: default_filter_presets(),
            filter_presets_artist: default_filter_presets(),
        })
    }
}

} // verus!
