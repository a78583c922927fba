//! The workspace: request editors in tabs, the saved-request sidebar, the
//! import panel and notices, as state that messages change.  Drawing it is
//! left to the application.
pub mod app;
pub mod editor;
pub mod labels;
