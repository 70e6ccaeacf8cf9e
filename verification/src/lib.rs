//! The verified core of the server: the music provider seam with its
//! built-in mock provider, and the settings descriptor that turns the config's
//! sections into typed, sectioned form fields.

pub mod api;
pub mod config;
pub mod music;
pub mod setting_syntax;
pub mod settings_derive;
pub mod syn_input;
