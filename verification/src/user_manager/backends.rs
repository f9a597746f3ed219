//! The backends that handle the messages of a platform user manager.
pub mod linux;
pub mod login_defs;
pub mod mock;
pub mod shadow;
