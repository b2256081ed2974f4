//! Core logic of a serverless terminal chat.
use vstd::prelude::*;

pub mod auth;
pub mod crypto;
pub mod connection;
pub mod order;
pub mod clock;
pub mod messaging;
pub mod text;
pub mod config;
pub mod ui_screens;
pub mod vim;
pub mod db;
