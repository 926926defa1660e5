pub mod text;
pub mod skills;
pub mod server;
pub mod tui;
pub mod sessions;
pub mod tools;
pub mod chat;
pub mod mail;
pub mod canvas;
pub mod catalogue;
