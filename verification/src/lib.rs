//! Local management of several Codex accounts.
//!
//! The library keeps the account registry (`registry.json`) consistent:
//! it reads and writes the registry document, merges accounts by address,
//! follows the authentication file that Codex uses, imports and removes
//! accounts, picks the account with the most quota left, and decides what
//! the quota monitor reports and when it switches accounts. Reading and
//! writing files, the terminal and the web server are left to the program
//! around it, which hands the library plain values.
pub mod auth;
pub mod base64url;
pub mod cli;
pub mod dashboard;
pub mod json;
pub mod models;
pub mod registry;
pub mod screen;
pub mod store;
pub mod text;
pub mod web;
