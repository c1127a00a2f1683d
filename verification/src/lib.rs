pub mod bootstrap;
pub mod commands;
pub mod cookie_database;
pub mod error;
pub mod fetch;
pub mod html;
pub mod laws;
pub mod membership;
pub mod reconcile;
pub mod roster;
pub mod text;
