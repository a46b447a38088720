use vstd::prelude::*;

pub mod action;
pub mod anim;
pub mod browser;
pub mod color;
pub mod config;
pub mod cursor;
pub mod desktop;
pub mod fs;
pub mod history;
pub mod input;
pub mod ipc;
pub mod listing;
pub mod palette;
pub mod path_ops;
pub mod paths;
pub mod places;
pub mod roles;
pub mod shelf;
pub mod shortcut;
pub mod sound;
pub mod status;
pub mod text;
pub mod wallpaper;
pub mod workspace;

verus! {
}
