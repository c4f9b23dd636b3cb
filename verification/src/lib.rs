use vstd::prelude::*;

pub mod browser;
pub mod custom_files;
pub mod fill;
pub mod fill_index;
pub mod filter;
pub mod filter_panel;
pub mod gui_model;
pub mod keys;
pub mod labels;
pub mod library;
pub mod list_entry;
pub mod name_search;
pub mod notif;
pub mod numparse;
pub mod playback;
pub mod queue_drop;
pub mod queue_view;
pub mod ranking;
pub mod replace;
pub mod search;
pub mod selection;
pub mod stats;
pub mod strings;
pub mod tag_edit;
pub mod textcfg;
pub mod text_field;
pub mod textgen;
pub mod updatable;
pub mod utf8_pos;

verus! {
} // verus!
