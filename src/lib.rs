//! Core of a small desktop file manager: navigation history, settings,
//! bookmarks and their file format, entry ordering and listing filters,
//! and the texts of the footer, sidebar and menus.

pub mod bookmarks;
pub mod file_item;
pub mod footer_bar;
pub mod headerbar;
pub mod popup_menu;
pub mod settings;
pub mod sidebar;
pub mod sorters;
pub mod state;
pub mod text;
