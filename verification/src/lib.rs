use vstd::prelude::*;

pub mod converter;
pub mod text;
pub mod json;
pub mod events;
pub mod conversation;
pub mod diff;
pub mod commands;
pub mod sessions;
pub mod todo;
pub mod git;
pub mod cost;
pub mod history;
pub mod input;
pub mod overlay;
pub mod toast;
pub mod theme;
pub mod config;
pub mod completion;
pub mod questions;
pub mod mentions;
pub mod activity;
pub mod tracker;
pub mod plugins;
pub mod pane;
pub mod markdown;
pub mod keys;
pub mod keybindings;
pub mod panels;
pub mod menus;
pub mod order;
pub mod viewers;
pub mod chat;
pub mod screens;

verus! {

} // verus!
