//! The settings API's logic.

pub mod settings_schema;
