pub mod accounts;
pub mod auth;
pub mod chats;
pub mod config;
pub mod error;
pub mod groups;
pub mod laws;
pub mod listing;
pub mod messaging;
pub mod models;
pub mod password;
pub mod search;
pub mod socket;
pub mod sorting;
pub mod store;
pub mod tables;
pub mod text;
