//! A menu of named shell commands, kept as a tree of labels.
//!
//! A configuration is a tree: a group maps labels to commands or to further
//! groups. The library builds the tree from a parsed JSON document
//! ([`tree`]), lays it out as a list of nodes that are addressed by
//! slash-delimited identifiers ([`path`], [`nodes`]), finds the node and the
//! command behind an identifier ([`select`], [`store`]), keeps track of what
//! is highlighted and expanded ([`nav`]) and turns keys into changes of that
//! state ([`session`]). [`laws`] holds what is proved of every
//! configuration. [`json`], [`widget`] and [`config`] hold what is taken on
//! trust from `serde_json`, `tui_tree_widget`, `directories` and
//! `std::path`.

pub mod args;
pub mod config;
pub mod error;
pub mod json;
pub mod laws;
pub mod nav;
pub mod nodes;
pub mod path;
pub mod select;
pub mod session;
pub mod store;
pub mod tree;
pub mod widget;
