use server_rs::api::settings_schema::{describe, EnumOption, Field, FieldKind, Schema};
use server_rs::config::{Config, MusicConfig};
use server_rs::settings_derive::{
    derive_settings_fields, derive_settings_options, FieldState, FieldValue, SettingsStruct,
};

const LLM_PROVIDER: &str = r#"
pub enum LlmProvider {
    #[setting(label = "Echo")]
    Echo,
    #[setting(label = "Gemini")]
    Gemini,
    #[setting(label = "Anthropic")]
    Anthropic,
    #[setting(label = "OpenAI")]
    OpenAi,
    #[serde(rename = "openai-compatible")]
    #[setting(label = "OpenAI-compatible")]
    OpenAiCompatible,
}
"#;

const LLM_CONFIG: &str = r#"
pub struct LlmConfig {
    #[setting(label = "Provider", enumerated)]
    pub provider: LlmProvider,
    #[setting(label = "Base URL", visible_when(field = "llm.provider", equals = "openai-compatible"))]
    pub base_url: Option<String>,
    #[setting(label = "API key", secret)]
    pub api_key: Option<String>,
}
"#;

fn llm_provider_options() -> Vec<EnumOption> {
    let values: Vec<String> = ["echo", "gemini", "anthropic", "openai", "openai-compatible"]
        .iter()
        .map(|s| s.to_string())
        .collect();
    derive_settings_options(LLM_PROVIDER, &values).unwrap()
}

fn state(value: FieldValue) -> FieldState {
    FieldState { value, getter: None }
}

/// The LLM section: the provider, the base URL (shown only for an
/// OpenAI-compatible provider) and the API key.
fn llm_section(api_key: Option<String>) -> SettingsStruct {
    derive_settings_fields(
        LLM_CONFIG,
        vec![
            state(FieldValue::Choice { options: llm_provider_options(), selected: 0 }),
            state(FieldValue::OptionalStr(None)),
            state(FieldValue::OptionalStr(api_key)),
        ],
    )
    .unwrap()
}

fn empty_section() -> SettingsStruct {
    derive_settings_fields("struct Empty {}", Vec::new()).unwrap()
}

fn default_config() -> Config {
    Config {
        server: empty_section(),
        llm: llm_section(None),
        weather: empty_section(),
        contacts: empty_section(),
        dev: empty_section(),
        music: MusicConfig { provider: "mock".to_string() },
    }
}

fn find_field<'a>(schema: &'a Schema, key: &str) -> &'a Field {
    schema
        .sections
        .iter()
        .flat_map(|s| s.fields.iter())
        .find(|f| f.key == key)
        .unwrap_or_else(|| panic!("field {key} not in descriptor"))
}

/// Every string the descriptor carries.
fn all_strings(schema: &Schema) -> Vec<String> {
    let mut out = Vec::new();
    for s in &schema.sections {
        out.push(s.key.to_string());
        out.push(s.label.to_string());
        for f in &s.fields {
            out.push(f.key.clone());
            out.push(f.label.clone());
            if let Some((k, v)) = &f.visible_when {
                out.push(k.clone());
                out.push(v.clone());
            }
            match &f.kind {
                FieldKind::String { value } | FieldKind::Text { value } => out.push(value.clone()),
                FieldKind::Enum { value, options } => {
                    out.push(value.clone());
                    for o in options {
                        out.push(o.value.clone());
                        out.push(o.label.clone());
                    }
                }
                FieldKind::Bool { .. } | FieldKind::Secret { .. } => {}
            }
        }
    }
    out
}

#[test]
fn secret_fields_report_is_set_not_the_value() {
    let mut config = default_config();
    config.llm = llm_section(Some("sk-secret".to_string()));
    let schema = describe(&config);

    let api_key = find_field(&schema, "llm.api_key");
    // The kind is a secret that only says whether it is set.
    assert!(matches!(api_key.kind, FieldKind::Secret { is_set: true }));
    // The value must never appear.
    assert!(!all_strings(&schema).iter().any(|s| s.contains("sk-secret")));
}

#[test]
fn enum_and_conditional_fields_are_described() {
    let schema = describe(&default_config());

    let provider = find_field(&schema, "llm.provider");
    let FieldKind::Enum { options, .. } = &provider.kind else {
        panic!("llm.provider is not an enum field");
    };
    let values: Vec<&str> = options.iter().map(|o| o.value.as_str()).collect();
    assert_eq!(values, ["echo", "gemini", "anthropic", "openai", "openai-compatible"]);
    let openai_compatible = options.iter().find(|o| o.value == "openai-compatible").unwrap();
    assert_eq!(openai_compatible.label, "OpenAI-compatible");

    // base_url is gated on the openai-compatible provider.
    let base_url = find_field(&schema, "llm.base_url");
    assert_eq!(
        base_url.visible_when,
        Some(("llm.provider".to_string(), "openai-compatible".to_string()))
    );
}

#[test]
fn sections_come_in_display_order() {
    let schema = describe(&default_config());
    let keys: Vec<&str> = schema.sections.iter().map(|s| s.key).collect();
    let labels: Vec<&str> = schema.sections.iter().map(|s| s.label).collect();
    assert_eq!(keys, ["server", "llm", "weather", "contacts", "dev"]);
    assert_eq!(labels, ["Server", "LLM", "Weather", "Contacts", "Developer"]);
}

#[test]
fn section_fields_are_keyed_by_section() {
    let schema = describe(&default_config());
    let llm = &schema.sections[1];
    let keys: Vec<&str> = llm.fields.iter().map(|f| f.key.as_str()).collect();
    assert_eq!(keys, ["llm.provider", "llm.base_url", "llm.api_key"]);
    let labels: Vec<&str> = llm.fields.iter().map(|f| f.label.as_str()).collect();
    assert_eq!(labels, ["Provider", "Base URL", "API key"]);
    assert!(schema.sections[0].fields.is_empty());
}

#[test]
fn selected_provider_is_the_enum_value() {
    let schema = describe(&default_config());
    assert!(matches!(&find_field(&schema, "llm.provider").kind, FieldKind::Enum { value, .. } if value == "echo"));
}

#[test]
fn unset_secret_reports_not_set() {
    let schema = describe(&default_config());
    let api_key = find_field(&schema, "llm.api_key");
    assert!(matches!(api_key.kind, FieldKind::Secret { is_set: false }));
}

#[test]
fn secret_value_does_not_change_the_descriptor() {
    let a = describe(&Config { llm: llm_section(Some("one".to_string())), ..default_config() });
    let b = describe(&Config { llm: llm_section(Some("another".to_string())), ..default_config() });
    assert_eq!(all_strings(&a), all_strings(&b));
}
