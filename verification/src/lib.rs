//! Named bookmarks for project directories: the project map, the resolver that
//! turns a query into exactly one project, and the listing shown when the
//! resolver has to ask.

pub mod text;
pub mod projects;
pub mod resolve;
pub mod listing;
pub mod command;
pub mod actions;
pub mod store;
