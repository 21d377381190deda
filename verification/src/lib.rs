//! Content-addressed texture catalog and menu engine for a hex-tile map
//! editor.
//!
//! The crate models the catalog of tile and overlay artwork as a tree of
//! ordered branches addressed by [`id::Id`] paths, derives the breadcrumb
//! menus that drive the editor's drill-in navigation, and owns the per-hex
//! placement state of the map.  Rendering, windowing and asset decoding are
//! external collaborators: they are represented by opaque handles, and the
//! code that talks to them lives outside this crate.

pub mod admin_button;
pub mod admin_menu;
pub mod attributes;
pub mod combatant;
pub mod editor;
pub mod errors;
pub mod id;
pub mod load_handler;
pub mod loading;
pub mod map;
pub mod navigation;
pub mod order;
pub mod resources;
pub mod texture_tree;
pub mod tile;
