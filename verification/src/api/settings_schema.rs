//! The settings as typed, sectioned fields, so a client renders the form
//! instead of hardcoding it.

use vstd::prelude::*;

use crate::config::Config;
use crate::settings_derive::{keys_distinct, keys_prefixed, spec_fields, SettingsStruct};

verus! {

/// One choice of an enum setting: its wire value and its label.
pub struct EnumOption {
    pub value: String,
    pub label: String,
}

/// The abstract value of an [`EnumOption`].
pub struct EnumOptionView {
    pub value: Seq<char>,
    pub label: Seq<char>,
}

impl View for EnumOption {
    type V = EnumOptionView;

    open spec fn view(&self) -> EnumOptionView {
        EnumOptionView { value: self.value@, label: self.label@ }
    }
}

/// The views of a list of options.
pub open spec fn options_view(v: Seq<EnumOption>) -> Seq<EnumOptionView> {
    v.map_values(|o: EnumOption| o@)
}

/// The per-type payload: a value for the scalars, `is_set` for a secret,
/// options for an enum.
#[allow(inconsistent_fields)]
pub enum FieldKind {
    String { value: String },
    Text { value: String },
    Bool { value: bool },
    Secret { is_set: bool },
    Enum { value: String, options: Vec<EnumOption> },
}

/// One described setting.
pub struct Field {
    pub key: String,
    pub label: String,
    pub kind: FieldKind,
    /// The field is shown only while the setting with the first key holds the
    /// second value.
    pub visible_when: Option<(String, String)>,
}

/// One user-facing section of settings.
pub struct Section {
    pub key: &'static str,
    pub label: &'static str,
    pub fields: Vec<Field>,
}

/// The whole descriptor.
pub struct Schema {
    pub sections: Vec<Section>,
}

/// The abstract value of a [`FieldKind`].
#[allow(inconsistent_fields)]
pub enum FieldKindView {
    String { value: Seq<char> },
    Text { value: Seq<char> },
    Bool { value: bool },
    Secret { is_set: bool },
    Enum { value: Seq<char>, options: Seq<EnumOptionView> },
}

/// The abstract value of a [`Field`].
pub struct FieldView {
    pub key: Seq<char>,
    pub label: Seq<char>,
    pub kind: FieldKindView,
    pub visible_when: Option<(Seq<char>, Seq<char>)>,
}

/// The abstract value of a [`Section`].
pub struct SectionView {
    pub key: &'static str,
    pub label: &'static str,
    pub fields: Seq<FieldView>,
}

impl View for FieldKind {
    type V = FieldKindView;

    open spec fn view(&self) -> FieldKindView {
        match self {
            FieldKind::String { value } => FieldKindView::String { value: value@ },
            FieldKind::Text { value } => FieldKindView::Text { value: value@ },
            FieldKind::Bool { value } => FieldKindView::Bool { value: *value },
            FieldKind::Secret { is_set } => FieldKindView::Secret { is_set: *is_set },
            FieldKind::Enum { value, options } => FieldKindView::Enum {
                value: value@,
                options: options_view(options@),
            },
        }
    }
}

impl View for Field {
    type V = FieldView;

    open spec fn view(&self) -> FieldView {
        FieldView {
            key: self.key@,
            label: self.label@,
            kind: self.kind@,
            visible_when: match self.visible_when {
                Some((k, v)) => Some((k@, v@)),
                None => None,
            },
        }
    }
}

/// The views of a sequence of fields.
pub open spec fn fields_view(fields: Seq<Field>) -> Seq<FieldView> {
    fields.map_values(|f: Field| f@)
}

impl View for Section {
    type V = SectionView;

    open spec fn view(&self) -> SectionView {
        SectionView { key: self.key, label: self.label, fields: fields_view(self.fields@) }
    }
}

impl View for Schema {
    type V = Seq<SectionView>;

    open spec fn view(&self) -> Seq<SectionView> {
        self.sections@.map_values(|s: Section| s@)
    }
}

/// The section with the given key and label whose fields a settings source
/// describes under that key.
pub open spec fn spec_section(
    key: &'static str,
    label: &'static str,
    source: Seq<crate::settings_derive::FieldDeclView>,
) -> SectionView {
    SectionView { key, label, fields: spec_fields(source, key@) }
}

/// The user-facing sections of a config, in display order.
pub open spec fn spec_describe(config: Config) -> Seq<SectionView> {
    seq![
        spec_section("server", "Server", config.server@),
        spec_section("llm", "LLM", config.llm@),
        spec_section("weather", "Weather", config.weather@),
        spec_section("contacts", "Contacts", config.contacts@),
        spec_section("dev", "Developer", config.dev@),
    ]
}

/// No two fields of the whole descriptor share a key.
pub open spec fn schema_keys_distinct(sections: Seq<SectionView>) -> bool {
    forall|a: int, b: int, i: int, j: int|
        0 <= a < sections.len() && 0 <= b < sections.len() && 0 <= i < sections[a].fields.len() && 0
            <= j < sections[b].fields.len() && (a != b || i != j) ==> (#[trigger] sections[a].fields[i]).key
            != (#[trigger] sections[b].fields[j]).key
}

/// The user-facing sections, in display order. Each is one config sub-struct;
/// the fields (and their keys, types, and values) come from its declaration.
/// No field is listed twice: every key is distinct.
pub fn describe(config: &Config) -> (schema: Schema)
    ensures
        schema@ == spec_describe(*config),
        schema_keys_distinct(schema@),
{
    let mut sections: Vec<Section> = Vec::new();
    sections.push(section("server", "Server", &config.server));
    sections.push(section("llm", "LLM", &config.llm));
    sections.push(section("weather", "Weather", &config.weather));
    sections.push(section("contacts", "Contacts", &config.contacts));
    sections.push(section("dev", "Developer", &config.dev));
    let schema = Schema { sections };
    assert(schema@ =~= spec_describe(*config));
    proof {
        reveal_strlit("server");
        reveal_strlit("llm");
        reveal_strlit("weather");
        reveal_strlit("contacts");
        reveal_strlit("dev");
        let ss = schema@;
        assert forall|a: int, b: int, i: int, j: int|
            0 <= a < ss.len() && 0 <= b < ss.len() && 0 <= i < ss[a].fields.len() && 0 <= j
                < ss[b].fields.len() && (a != b || i != j) implies (#[trigger] ss[a].fields[i]).key
            != (#[trigger] ss[b].fields[j]).key by {
            let ka = ss[a].key@;
            let kb = ss[b].key@;
            assert(keys_prefixed(ss[a].fields, ka));
            assert(keys_prefixed(ss[b].fields, kb));
            if a != b {
                assert(ss[a].fields[i].key.subrange(0, ka.len() as int)[0] == ka[0]);
                assert(ss[b].fields[j].key.subrange(0, kb.len() as int)[0] == kb[0]);
                assert(ka[0] != kb[0]);
            } else {
                assert(keys_distinct(ss[a].fields));
                if i > j {
                    assert(ss[a].fields[j].key != ss[a].fields[i].key);
                }
            }
        }
    }
    schema
}

/// One section: its key and label, and the fields of `source` keyed under
/// it, each key distinct and of the form `<key>.<field>`.
pub fn section(key: &'static str, label: &'static str, source: &SettingsStruct) -> (s: Section)
    ensures
        s@ == spec_section(key, label, source@),
        keys_distinct(s@.fields),
        keys_prefixed(s@.fields, key@),
{
    Section { key, label, fields: source.settings_fields(key) }
}

/// Each section of the descriptor is built from the config sub-struct of its
/// own name: the section keyed `server` describes `config.server` under the
/// prefix `server`, and likewise `llm`, `weather`, `contacts` and `dev`, in
/// that order.
pub proof fn law_sections_come_from_their_own_structs(config: Config)
    ensures
        spec_describe(config).len() == 5,
        spec_describe(config)[0].key == "server" && spec_describe(config)[0].fields == spec_fields(
            config.server@,
            "server"@,
        ),
        spec_describe(config)[1].key == "llm" && spec_describe(config)[1].fields == spec_fields(
            config.llm@,
            "llm"@,
        ),
        spec_describe(config)[2].key == "weather" && spec_describe(config)[2].fields == spec_fields(
            config.weather@,
            "weather"@,
        ),
        spec_describe(config)[3].key == "contacts" && spec_describe(config)[3].fields == spec_fields(
            config.contacts@,
            "contacts"@,
        ),
        spec_describe(config)[4].key == "dev" && spec_describe(config)[4].fields == spec_fields(
            config.dev@,
            "dev"@,
        ),
{
}

} // verus!
