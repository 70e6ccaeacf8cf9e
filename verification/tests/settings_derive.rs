use server_rs::api::settings_schema::{EnumOption, FieldKind};
use server_rs::setting_syntax::{parse_setting_items, SettingMeta};
use server_rs::settings_derive::{
    derive_settings_fields, derive_settings_options, kind_expr, settings_options, FieldAttr,
    FieldDecl, FieldState, FieldValue, SettingError, SettingKind, SettingsStruct, VariantDecl,
};

fn texts(attrs: &[&str]) -> Vec<String> {
    attrs.iter().map(|s| s.to_string()).collect()
}

fn ty(path: &[&str]) -> Vec<String> {
    path.iter().map(|s| s.to_string()).collect()
}

fn decl(name: &str, ty_path: &[&str], attrs: &[&str], value: FieldValue) -> FieldDecl {
    FieldDecl {
        name: name.to_string(),
        ty: ty(ty_path),
        ty_path: Some(ty_path.join(" :: ")),
        attrs: texts(attrs),
        value,
        getter: None,
    }
}

fn state(value: FieldValue) -> FieldState {
    FieldState { value, getter: None }
}

#[test]
fn items_are_read_in_order() {
    let ms = parse_setting_items(
        r#"label = "Base URL", get = "base_url_text", text, visible_when(field = "llm.provider", note, equals = "openai-compatible"),"#,
    )
    .unwrap();
    assert_eq!(ms.len(), 4);
    assert!(matches!(&ms[0], SettingMeta::Label(l) if l == "Base URL"));
    assert!(matches!(&ms[1], SettingMeta::Get(g) if g == "base_url_text"));
    assert!(matches!(&ms[2], SettingMeta::Text));
    assert!(matches!(&ms[3], SettingMeta::VisibleWhen(w, e) if w == "llm.provider" && e == "openai-compatible"));
}

#[test]
fn printed_token_spacing_is_read_too() {
    let ms = parse_setting_items(r#"label = "Provider" , enumerated"#).unwrap();
    assert!(matches!(&ms[0], SettingMeta::Label(l) if l == "Provider"));
    assert!(matches!(&ms[1], SettingMeta::Enumerated));
    assert!(parse_setting_items("").unwrap().is_empty());
    assert!(matches!(&parse_setting_items("secret").unwrap()[0], SettingMeta::Secret));
}

#[test]
fn literal_escapes_are_resolved() {
    let ms = parse_setting_items(r#"label = "A \"quoted\" label""#).unwrap();
    assert!(matches!(&ms[0], SettingMeta::Label(l) if l == "A \"quoted\" label"));
}

#[test]
fn raw_and_suffixed_literals_are_read() {
    let ms = parse_setting_items(r##"label = r"C:\dir", get = r#"a "b" c"#, text"##).unwrap();
    assert!(matches!(&ms[0], SettingMeta::Label(l) if l == "C:\\dir"));
    assert!(matches!(&ms[1], SettingMeta::Get(g) if g == "a \"b\" c"));
    let ms = parse_setting_items(r#"label = "x"suffix"#).unwrap();
    assert!(matches!(&ms[0], SettingMeta::Label(l) if l == "x"));
    assert_eq!(parse_setting_items(r#"label = b"x""#).err(), Some(SettingError::Malformed));
}

#[test]
fn raw_identifiers_are_not_keywords() {
    let ms = parse_setting_items(r#"label = "L", visible_when(r#note, field = "a", equals = "b")"#).unwrap();
    assert!(matches!(&ms[1], SettingMeta::VisibleWhen(w, e) if w == "a" && e == "b"));
    assert_eq!(parse_setting_items("r#secret").err(), Some(SettingError::UnknownAttribute));
}

#[test]
fn item_grammar_refusals() {
    let err = |s: &str| parse_setting_items(s).err();
    assert_eq!(err(r#"label = "L", color = "red""#), Some(SettingError::UnknownAttribute));
    assert_eq!(err(r#"label = "L", enum"#), Some(SettingError::UnknownAttribute));
    assert_eq!(err(r#"a::label = "L""#), Some(SettingError::UnknownAttribute));
    assert_eq!(err(r#"color = "red", label"#), Some(SettingError::UnknownAttribute));
    assert_eq!(
        err(r#"label = "L", visible_when(field = "llm.provider")"#),
        Some(SettingError::IncompleteVisibleWhen)
    );
    assert_eq!(err("visible_when()"), Some(SettingError::Malformed));
    assert_eq!(err("visible_when"), Some(SettingError::Malformed));
    assert_eq!(err(r#"visible_when(other = "x", field = "a", equals = "b")"#), Some(SettingError::Malformed));
    assert_eq!(err("label"), Some(SettingError::Malformed));
    assert_eq!(err("label = 5"), Some(SettingError::Malformed));
    assert_eq!(err("secret extra"), Some(SettingError::Malformed));
    assert_eq!(err("secret,,"), Some(SettingError::Malformed));
    assert_eq!(err(r#"label = "unclosed"#), Some(SettingError::Malformed));
}

#[test]
fn no_setting_attribute_is_not_exposed() {
    assert!(matches!(FieldAttr::parse(&texts(&["#[serde(default)]"])), Ok(None)));
    assert!(matches!(FieldAttr::parse(&Vec::new()), Ok(None)));
}

#[test]
fn parse_reads_every_item() {
    let attr = FieldAttr::parse(&texts(&[
        "#[serde(default)]",
        r#"#[setting(label = "Base URL", get = "base_url_text", text, visible_when(field = "llm.provider", equals = "openai-compatible"))]"#,
    ]))
    .unwrap()
    .unwrap();
    assert_eq!(attr.label, "Base URL");
    assert_eq!(attr.kind, Some(SettingKind::Text));
    assert_eq!(attr.get.as_deref(), Some("base_url_text"));
    assert_eq!(attr.visible_when, Some(("llm.provider".to_string(), "openai-compatible".to_string())));
}

#[test]
fn later_items_replace_earlier_ones() {
    let attr = FieldAttr::parse(&texts(&[r#"#[setting(label = "First", secret, label = "Second", enumerated)]"#]))
        .unwrap()
        .unwrap();
    assert_eq!(attr.label, "Second");
    assert_eq!(attr.kind, Some(SettingKind::Enumerated));
}

#[test]
fn rooted_setting_path_is_not_the_setting_attribute() {
    assert!(matches!(FieldAttr::parse(&texts(&[r#"#[::setting(label = "L")]"#])), Ok(None)));
    assert!(matches!(FieldAttr::parse(&texts(&[r#"#[a::setting(label = "L")]"#])), Ok(None)));
}

#[test]
fn only_the_first_setting_attribute_counts() {
    let attrs = texts(&[r#"#[setting(label = "First")]"#, r#"#[setting(bogus)]"#]);
    assert_eq!(FieldAttr::parse(&attrs).unwrap().unwrap().label, "First");
}

#[test]
fn attribute_refusals() {
    let parse = |a: &str| FieldAttr::parse(&texts(&[a])).err();
    assert_eq!(parse("#[setting(text)]"), Some(SettingError::MissingLabel));
    assert_eq!(parse("#[setting()]"), Some(SettingError::MissingLabel));
    assert_eq!(parse("#[setting]"), Some(SettingError::Malformed));
    assert_eq!(parse(r#"#[setting = "x"]"#), Some(SettingError::Malformed));
    assert_eq!(parse(r#"#[setting(label = "L", color = "red")]"#), Some(SettingError::UnknownAttribute));
    assert_eq!(parse("not an attribute"), Some(SettingError::Malformed));
}

fn attr(kind: Option<SettingKind>, get: Option<&str>) -> FieldAttr {
    FieldAttr { label: "L".to_string(), kind, get: get.map(|g| g.to_string()), visible_when: None }
}

#[test]
fn kinds_follow_attribute_and_type() {
    let d = decl("f", &["bool"], &[], FieldValue::Bool(true));
    assert!(matches!(kind_expr(&attr(None, None), &d), Ok(FieldKind::Bool { value: true })));

    let d = decl("f", &["String"], &[], FieldValue::Str("abc".to_string()));
    assert!(matches!(kind_expr(&attr(None, None), &d), Ok(FieldKind::String { value }) if value == "abc"));
    assert!(matches!(kind_expr(&attr(Some(SettingKind::Text), None), &d), Ok(FieldKind::Text { value }) if value == "abc"));

    let d = decl("f", &["Option"], &[], FieldValue::OptionalStr(None));
    assert!(matches!(kind_expr(&attr(None, None), &d), Ok(FieldKind::String { value }) if value.is_empty()));
    assert!(matches!(kind_expr(&attr(Some(SettingKind::Secret), None), &d), Ok(FieldKind::Secret { is_set: false })));

    let d = decl("f", &["std", "option", "Option"], &[], FieldValue::Optional(true));
    assert!(matches!(kind_expr(&attr(Some(SettingKind::Secret), None), &d), Ok(FieldKind::Secret { is_set: true })));

    let options = vec![
        EnumOption { value: "a".to_string(), label: "A".to_string() },
        EnumOption { value: "b".to_string(), label: "B".to_string() },
    ];
    let d = decl("f", &["Units"], &[], FieldValue::Choice { options, selected: 1 });
    match kind_expr(&attr(Some(SettingKind::Enumerated), None), &d) {
        Ok(FieldKind::Enum { value, options }) => {
            assert_eq!(value, "b");
            assert_eq!(options.iter().map(|o| o.label.as_str()).collect::<Vec<_>>(), ["A", "B"]);
        }
        _ => panic!("expected an enum field"),
    }
}

#[test]
fn only_a_plain_bool_path_is_a_checkbox() {
    let kind_of = |src: &str, value: FieldValue| {
        let s = derive_settings_fields(src, vec![state(value)]).map(|s| s.settings_fields("p"));
        s.map(|mut f| f.remove(0).kind)
    };
    assert!(matches!(
        kind_of(r#"struct S { #[setting(label = "F")] f: bool }"#, FieldValue::Bool(true)),
        Ok(FieldKind::Bool { value: true })
    ));
    assert_eq!(
        kind_of(r#"struct S { #[setting(label = "F")] f: ::bool }"#, FieldValue::Bool(true)).err(),
        Some(SettingError::NotRenderable)
    );
    assert_eq!(
        kind_of(r#"struct S { #[setting(label = "F")] f: std::primitive::bool }"#, FieldValue::Bool(true)).err(),
        Some(SettingError::NotRenderable)
    );
    assert!(matches!(
        kind_of(r#"struct S { #[setting(label = "F", secret)] f: Option<u32> }"#, FieldValue::Optional(true)),
        Ok(FieldKind::Secret { is_set: true })
    ));
}

#[test]
fn getter_supplies_the_string() {
    let mut d = decl("port", &["u16"], &[], FieldValue::Other);
    assert_eq!(kind_expr(&attr(None, None), &d).err(), Some(SettingError::NotRenderable));
    assert_eq!(kind_expr(&attr(None, Some("port_text")), &d).err(), Some(SettingError::UnknownGetter));
    d.getter = Some("8080".to_string());
    assert!(matches!(kind_expr(&attr(None, Some("port_text")), &d), Ok(FieldKind::String { value }) if value == "8080"));
}

#[test]
fn kind_refusals() {
    let d = decl("f", &["String"], &[], FieldValue::Str("x".to_string()));
    assert_eq!(kind_expr(&attr(Some(SettingKind::Secret), None), &d).err(), Some(SettingError::SecretNotOptional));
    assert_eq!(kind_expr(&attr(Some(SettingKind::Enumerated), None), &d).err(), Some(SettingError::NotRenderable));
    let d = decl("f", &["bool"], &[], FieldValue::Bool(false));
    assert_eq!(kind_expr(&attr(Some(SettingKind::Text), None), &d).err(), Some(SettingError::NotRenderable));
    let d = decl("f", &["Units"], &[], FieldValue::Choice { options: Vec::new(), selected: 0 });
    assert_eq!(kind_expr(&attr(Some(SettingKind::Enumerated), None), &d).err(), Some(SettingError::NotRenderable));
}

#[test]
fn settings_fields_skip_unexposed_and_key_by_prefix() {
    let s = derive_settings_fields(
        r#"struct ServerConfig {
            #[setting(label = "Host")]
            host: String,
            internal: u32,
            #[setting(label = "Debug")]
            debug: bool,
        }"#,
        vec![
            state(FieldValue::Str("0.0.0.0".to_string())),
            state(FieldValue::Other),
            state(FieldValue::Bool(false)),
        ],
    )
    .unwrap();
    let fields = s.settings_fields("server");
    assert_eq!(fields.len(), 2);
    assert_eq!(fields[0].key, "server.host");
    assert_eq!(fields[0].label, "Host");
    assert!(matches!(&fields[0].kind, FieldKind::String { value } if value == "0.0.0.0"));
    assert_eq!(fields[1].key, "server.debug");
    assert!(matches!(fields[1].kind, FieldKind::Bool { value: false }));
    assert_eq!(fields[1].visible_when, None);
    let moved = s.settings_fields("dev");
    assert_eq!(moved[0].key, "dev.host");
    assert_eq!(moved[1].key, "dev.debug");
}

#[test]
fn derive_refusals() {
    let none = Vec::new;
    assert_eq!(derive_settings_fields("enum E { A }", none()).err(), Some(SettingError::NotAStruct));
    assert_eq!(derive_settings_fields("union U { a: u8 }", none()).err(), Some(SettingError::NotAStruct));
    assert_eq!(derive_settings_fields("struct T(u8);", none()).err(), Some(SettingError::NoNamedFields));
    assert_eq!(derive_settings_fields("struct U;", none()).err(), Some(SettingError::NoNamedFields));
    assert_eq!(derive_settings_fields("struct {", none()).err(), Some(SettingError::Malformed));
    assert_eq!(derive_settings_fields("struct S { a: u8 }", none()).err(), Some(SettingError::ValuesMismatch));
}

#[test]
fn derive_reports_the_first_bad_field() {
    let r = derive_settings_fields(
        r#"struct S {
            #[setting(label = "A")] a: String,
            #[setting(label = "B", secret)] b: bool,
            #[setting(text)] c: String,
        }"#,
        vec![
            state(FieldValue::Str("x".to_string())),
            state(FieldValue::Bool(true)),
            state(FieldValue::Str("y".to_string())),
        ],
    );
    assert_eq!(r.err(), Some(SettingError::SecretNotOptional));
}

#[test]
fn duplicate_names_are_refused() {
    let r = SettingsStruct::new(vec![
        decl("a", &["String"], &[r#"#[setting(label = "A")]"#], FieldValue::Str("x".to_string())),
        decl("a", &["String"], &[], FieldValue::Str("y".to_string())),
    ]);
    assert_eq!(r.err(), Some(SettingError::DuplicateField));
}

#[test]
fn options_follow_the_variants() {
    let options = derive_settings_options(
        r#"enum Units { #[setting(label = "Celsius")] C, #[setting(label = "Fahrenheit")] F }"#,
        &vec!["c".to_string(), "f".to_string()],
    )
    .unwrap();
    let pairs: Vec<(&str, &str)> = options.iter().map(|o| (o.value.as_str(), o.label.as_str())).collect();
    assert_eq!(pairs, [("c", "Celsius"), ("f", "Fahrenheit")]);
}

#[test]
fn option_refusals() {
    let vals = vec!["c".to_string(), "f".to_string()];
    let r = derive_settings_options(r#"enum Units { #[setting(label = "Celsius")] C, F }"#, &vals);
    assert_eq!(r.err(), Some(SettingError::VariantWithoutSetting));
    let r = derive_settings_options("struct S { a: u8 }", &vals);
    assert_eq!(r.err(), Some(SettingError::NotAnEnum));
    let r = derive_settings_options("enum E { A }", &vals);
    assert_eq!(r.err(), Some(SettingError::ValuesMismatch));
    let r = settings_options(&vec![VariantDecl { value: "c".to_string(), attrs: texts(&["#[setting()]"]) }]);
    assert_eq!(r.err(), Some(SettingError::MissingLabel));
}
