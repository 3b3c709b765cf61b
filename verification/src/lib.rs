//! Profile handling for a profile-aware Google Workspace command line front end.
pub mod text;
pub mod json;
pub mod profile;
pub mod cli;
pub mod output;
