//! The engine core: the frame render graph and its compiler, the frame the
//! engine declares on it, and the editor's and build watcher's decisions.

pub mod build_watcher;
pub mod camera_controller;
pub mod collision;
pub mod editor;
pub mod entity;
pub mod gfx;
pub mod profile;
pub mod text;

