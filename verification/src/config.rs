//! The server's configuration, as far as the settings descriptor and the
//! music provider seam read it.

use vstd::prelude::*;

use crate::settings_derive::SettingsStruct;

verus! {

/// The music section: which provider backs the shim.
pub struct MusicConfig {
    pub provider: String,
}

/// The configuration: one settings source per user-facing section, and the
/// music section.
pub struct Config {
    pub server: SettingsStruct,
    pub llm: SettingsStruct,
    pub weather: SettingsStruct,
    pub contacts: SettingsStruct,
    pub dev: SettingsStruct,
    pub music: MusicConfig,
}

} // verus!
