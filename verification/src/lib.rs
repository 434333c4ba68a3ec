//! Domain logic of a StatusNotifierItem system tray, with its contracts.
//!
//! Everything in this crate is a plain function over plain data: no I/O, no
//! D-Bus, no GTK, no async, no interior mutability. The daemon and the
//! settings app are thin imperative shells around it: they turn messages into
//! [`Event`]s, fold them through [`update`] and then carry out the returned
//! [`Effect`]s. That keeps all decisions — what a tray icon is, which pixmap
//! to use, how items are ordered, what a menu node means — in one place.
//!
//! The [`view`] module holds the data contract shared with the GNOME Shell
//! extension and the settings app over D-Bus, and [`rebuild`] shows that a
//! menu sent flat comes back as the same tree; [`wire`] decodes what arrives
//! from tray applications; [`settings`] is the state machine of the settings
//! window and [`daemon`] the decisions of the daemon around the reducer.

pub mod config;
pub mod daemon;
pub mod demo;
pub mod icon;
pub mod menu;
pub mod model;
pub mod props;
pub mod rebuild;
pub mod rules;
pub mod settings;
pub mod sni;
pub mod text;
pub mod view;
pub mod wire;

pub use config::{Config, PanelBox, SortMode};
pub use icon::Pixmap;
pub use model::{
    all_keys, snapshot, snapshot_all, update, update_all, Effect, Event, Item, Key, State,
};
pub use sni::ServiceRef;
pub use view::{ConfigView, IconView, ItemView, MenuNodeView, MenuView, StatusView};

use vstd::prelude::*;

verus! {
} // verus!
