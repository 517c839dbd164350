//! Interactive widgets.

pub mod list_picker;
