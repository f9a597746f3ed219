//! Synchronizes the members of a GitHub organization with local user accounts.
pub mod accounts;
pub mod archive_walk;
pub mod archiver;
pub mod authorized_keys;
pub mod calendar;
pub mod cli;
pub mod departures;
pub mod groups;
pub mod listing;
pub mod members;
pub mod names;
pub mod numerals;
pub mod octosync;
pub mod public_keys;
pub mod purge;
pub mod ssh_directory;
pub mod store;
pub mod text;
pub mod user_manager;
