//! Verified logic of the Birei component library: text and markup helpers,
//! the Markdown editor's source edits, tables and document state, keyboard
//! and selection behaviour of lists, selects, menus, tabs and tables,
//! notifications, QR codes, signature documents and relation graph layering.
use vstd::prelude::*;

pub mod button_bar;
pub mod controls;
pub mod icon;
pub mod illustration;
pub mod input;
pub mod list;
pub mod map_tiles;
pub mod markdown_dom;
pub mod markdown_legacy;
pub mod markdown_menu;
pub mod markdown_source;
pub mod markdown_state;
pub mod markdown_table;
pub mod menu_button;
pub mod notification;
pub mod popup;
pub mod qr_code;
pub mod relation_graph;
pub mod roving;
pub mod select;
pub mod sign_pad;
pub mod tab;
pub mod table;
pub mod text;

verus! {

} // verus!
