//! Verified core of a terminal Tox chat client: text editing, fuzzy
//! command menus, message layout, SVG export of terminal buffers and the
//! small utilities around them.

pub mod text;
pub mod utils;
pub mod command_menu;
pub mod unicode;
pub mod input_box;
pub mod input_layout;
pub mod input_keys;
pub mod message_list;
pub mod export;
pub mod svg;
pub mod completion;
pub mod pickers;
pub mod sidebar;
pub mod status_bar;
pub mod config;
pub mod panels;
pub mod model;
pub mod log_cleaner;
pub mod history;
pub mod bootstrap;
pub mod domain;
pub mod msg;
pub mod update;
pub mod log_view;
pub mod sidebar_list;
pub mod reconcile;
pub mod nav_keys;
pub mod chat_keys;
pub mod overlay_keys;
pub mod blocked;
pub mod send;
pub mod enter_key;
pub mod keys;
