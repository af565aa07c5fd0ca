//! The editor's state that is not drawing: themes, the tool tabs, where the
//! preferences live, and the requests panels raise for the frame to apply.

pub mod dock;
pub mod hierarchy;
pub mod inspector;
pub mod prefs;
pub mod state;
pub mod theme;
