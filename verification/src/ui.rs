//! What the windows show and how they react, apart from the widgets.

pub mod actions;
pub mod edit;
pub mod notify;
pub mod pane;
pub mod prompts;
pub mod properties;
pub mod queue;
pub mod site_editor;
pub mod site_tree;
pub mod splash;
pub mod workspace;
