//! Songbird: the request model, the cURL importer, the body formatter and the
//! workspace state machine of a desktop HTTP client.
pub mod text;
pub mod model;
pub mod format;
pub mod storage;
pub mod ui;
