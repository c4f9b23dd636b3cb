//! The state of the library view between frames: the search, the library as
//! kept and as shown, and the selection; and what each frame changes of it.
use vstd::prelude::*;
use crate::labels::{selection_counter_text, selection_text};
use crate::library::{
    artists_model, filter_local_library, filtered_library, sorted_from, update_local_library,
    FilteredArtist, Library, LibrarySearch, SortedArtist,
};
use crate::search::{regex_builds, SearchField};
use crate::selection::Selected;
use crate::strings::str_eq;

verus! {

broadcast use vstd::string::group_string_axioms;

/// The text box of a search field in this frame: its text, and whether it
/// was edited (it redraws).
pub struct SearchInput<'a> {
    pub text: &'a str,
    pub edited: bool,
}

pub struct LibraryBrowser {
    pub search: LibrarySearch,
    /// Whether the patterns were compiled case-sensitively.
    pub case_sensitive: bool,
    /// The database changed since the library was last sorted.
    pub library_updated: bool,
    pub sorted: Vec<SortedArtist>,
    pub filtered: Vec<FilteredArtist>,
    pub selected: Selected,
    /// The selection counts the counter shows.
    pub selected_counts: (usize, usize, usize),
}

/// A field whose text box is taken in again: `g` is `f` with the box's text,
/// compiled with the case setting; the filter stays.
pub open spec fn field_retyped(f: SearchField, g: SearchField, text: Seq<char>, case_sensitive: bool) -> bool {
    &&& g.text@ == text
    &&& g.filter == f.filter
    &&& (g.regex is Some <==> (text.len() > 0 && regex_builds(text, !case_sensitive)))
    &&& (g.regex matches Some(re) ==> re@ == (text, !case_sensitive))
}

/// Whether a field takes in its text box: when its patterns are to be
/// recompiled, or when the box was edited and its text differs.
pub open spec fn field_retakes(f: SearchField, input: SearchInput, rebuild: bool) -> bool {
    rebuild || (input.edited && f.text@ != input.text@)
}

pub open spec fn field_step(f: SearchField, g: SearchField, input: SearchInput, rebuild: bool, case_sensitive: bool) -> bool {
    if field_retakes(f, input, rebuild) {
        field_retyped(f, g, input.text@, case_sensitive)
    } else {
        g == f
    }
}

fn step_field(f: &mut SearchField, input: &SearchInput, rebuild: bool, case_sensitive: bool) -> (r: bool)
    ensures
        r == field_retakes(*old(f), *input, rebuild),
        field_step(*old(f), *final(f), *input, rebuild, case_sensitive),
{
    if rebuild || (input.edited && !str_eq(f.text.as_str(), input.text)) {
        f.set_text(input.text.to_string(), case_sensitive);
        true
    } else {
        false
    }
}

impl LibraryBrowser {
    /// An empty view of an empty search.
    pub fn new(search: LibrarySearch, case_sensitive: bool) -> (r: LibraryBrowser)
        ensures
            r.search == search,
            r.case_sensitive == case_sensitive,
            r.library_updated,
            r.sorted@.len() == 0,
            r.filtered@.len() == 0,
            r.selected@ == (Set::<u64>::empty(), Set::<u64>::empty(), Set::<u64>::empty()),
            r.selected_counts == (0usize, 0usize, 0usize),
    {
        LibraryBrowser {
            search,
            case_sensitive,
            library_updated: true,
            sorted: Vec::new(),
            filtered: Vec::new(),
            selected: Selected::new(),
            selected_counts: (0, 0, 0),
        }
    }

    /// The database changed: the library is sorted again on the next
    /// refresh.
    pub fn updated_library(&mut self)
        ensures
            final(self).library_updated,
            final(self).search == old(self).search,
            final(self).sorted == old(self).sorted,
            final(self).filtered == old(self).filtered,
    {
        self.library_updated = true;
    }

    /// Takes in the search settings and the search boxes of a frame. When
    /// the settings (or the selection) changed, the case and start-match
    /// settings are taken in, and a change of case recompiles every
    /// pattern. Returns whether the search changed: the settings changed, or
    /// a field took in its box.
    pub fn update_search(
        &mut self,
        settings_changed: bool,
        case_sensitive: bool,
        prefer_start: bool,
        artist: &SearchInput,
        album: &SearchInput,
        song: &SearchInput,
    ) -> (r: bool)
        ensures
            ({
                let changed = settings_changed || old(self).selected.changed;
                let rebuild = changed && old(self).case_sensitive != case_sensitive;
                let cs = if changed { case_sensitive } else { old(self).case_sensitive };
                &&& final(self).case_sensitive == cs
                &&& final(self).search.prefer_start == (if changed { prefer_start } else { old(self).search.prefer_start })
                &&& !final(self).selected.changed
                &&& final(self).selected@ == old(self).selected@
                &&& field_step(old(self).search.artist, final(self).search.artist, *artist, rebuild, cs)
                &&& field_step(old(self).search.album, final(self).search.album, *album, rebuild, cs)
                &&& field_step(old(self).search.song, final(self).search.song, *song, rebuild, cs)
                &&& r == (changed || field_retakes(old(self).search.artist, *artist, rebuild)
                    || field_retakes(old(self).search.album, *album, rebuild)
                    || field_retakes(old(self).search.song, *song, rebuild))
            }),
            final(self).library_updated == old(self).library_updated,
            final(self).sorted == old(self).sorted,
            final(self).filtered == old(self).filtered,
            final(self).selected_counts == old(self).selected_counts,
    {
        let changed = settings_changed || self.selected.changed;
        self.selected.changed = false;
        let mut rebuild = false;
        if changed {
            if self.case_sensitive != case_sensitive {
                self.case_sensitive = case_sensitive;
                rebuild = true;
            }
            self.search.prefer_start = prefer_start;
        }
        let cs = self.case_sensitive;
        let a = step_field(&mut self.search.artist, artist, rebuild, cs);
        let b = step_field(&mut self.search.album, album, rebuild, cs);
        let c = step_field(&mut self.search.song, song, rebuild, cs);
        changed || a || b || c
    }

    /// Brings the view up to date: sorts the library again when the
    /// database changed, narrows it again when that or the search changed,
    /// and then counts the selection; returns the counter's new text when
    /// the counts changed and something is selected.
    pub fn refresh(&mut self, db: &Library, search_changed: bool) -> (r: Option<String>)
        ensures
            !final(self).library_updated,
            final(self).search == old(self).search,
            final(self).selected@ == old(self).selected@,
            old(self).library_updated ==> sorted_from(*db, final(self).sorted@),
            !old(self).library_updated ==> final(self).sorted == old(self).sorted,
            ({
                let refilter = old(self).library_updated || search_changed;
                let counts = (old(self).selected@.0.len(), old(self).selected@.1.len(), old(self).selected@.2.len());
                let new_counts = refilter && (final(self).selected_counts.0 as nat, final(self).selected_counts.1 as nat, final(self).selected_counts.2 as nat) != (old(self).selected_counts.0 as nat, old(self).selected_counts.1 as nat, old(self).selected_counts.2 as nat);
                &&& refilter ==> artists_model(final(self).filtered@) == filtered_library(*db, final(self).search, final(self).sorted@)
                &&& !refilter ==> final(self).filtered == old(self).filtered
                &&& refilter ==> (final(self).selected_counts.0 as nat, final(self).selected_counts.1 as nat, final(self).selected_counts.2 as nat) == counts
                &&& !refilter ==> final(self).selected_counts == old(self).selected_counts
                &&& match selection_text(counts.0, counts.1, counts.2) {
                    Some(t) => if new_counts { r matches Some(s) && s@ == t } else { r is None },
                    None => r is None,
                }
            }),
    {
        let mut refilter = search_changed;
        if self.library_updated {
            self.library_updated = false;
            self.sorted = update_local_library(db);
            refilter = true;
        }
        if !refilter {
            return None;
        }
        self.filtered = filter_local_library(db, &self.search, &self.sorted);
        let counts = self.selected.counts();
        if counts.0 != self.selected_counts.0 || counts.1 != self.selected_counts.1 || counts.2 != self.selected_counts.2 {
            self.selected_counts = counts;
            selection_counter_text(counts.0, counts.1, counts.2)
        } else {
            None
        }
    }
}

} // verus!
