//! Meetinizer: the logic of a small self-hosted service that lets a group of
//! people agree on a date and time for a meeting, with password-less logins
//! by mailed links.

pub mod seq_facts;

pub mod structs;
pub mod config;
pub mod json;
pub mod json_read;
pub mod claims;
pub mod url;
pub mod login;
pub mod admin;
pub mod meeting_db;
pub mod laws;
pub mod mock;
pub mod mail;
