//! How a config sub-struct describes its settings. A field's key and value
//! wiring come from the struct itself; only the UI semantics a type can't
//! express — label, whether it's a secret/enum/multiline, and conditional
//! visibility — are given as `#[setting(...)]` attributes.
//!
//! [`derive_settings_fields`] reads a struct's source text, checks each
//! `#[setting(...)]`-annotated field once and yields a [`SettingsStruct`],
//! whose [`SettingsStruct::settings_fields`] emits one descriptor [`Field`]
//! per annotated field, keyed `<prefix>.<field>`. [`derive_settings_options`]
//! reads a fieldless enum's source text and gives its dropdown options.

use vstd::prelude::*;

use crate::api::settings_schema::{
    fields_view, options_view, EnumOption, EnumOptionView, Field, FieldKind, FieldKindView,
    FieldView,
};
use crate::setting_syntax::{
    metas_view, parse_setting_items, spec_setting_items, SettingMeta, SettingMetaView,
};
use crate::syn_input::{
    raw_fields_view, raw_variants_view, read_attribute, read_field, read_item, read_variant,
    strings_view, syn_attribute, syn_field, syn_item, syn_variant, RawField, RawFieldView,
    RawFields, RawItem, RawItemView, RawVariant, RawVariantView,
};

verus! {

/// The kind a `#[setting]` attribute gives a field; without one the field's
/// type decides (a `bool` is a checkbox, anything else a string).
#[derive(Clone, Copy, Debug, PartialEq, Eq, Structural)]
pub enum SettingKind {
    Secret,
    Enumerated,
    Text,
}

/// Why an item cannot be described. Each one stops the derive: where the
/// expansion would report a compile error or panic, or where the generated
/// code would not type-check, the description is refused with the reason.
#[derive(Clone, Copy, Debug, PartialEq, Eq, Structural)]
pub enum SettingError {
    /// Source or attribute text that does not follow the grammar.
    Malformed,
    /// An item of `#[setting(...)]` that is not one of the known ones.
    UnknownAttribute,
    /// `visible_when` without both `field = "…"` and `equals = "…"`.
    IncompleteVisibleWhen,
    /// `#[setting]` without `label = "…"`.
    MissingLabel,
    /// A secret field whose type is not an `Option`.
    SecretNotOptional,
    /// A field whose value cannot be shown as the kind it was given.
    NotRenderable,
    /// `get = "…"` names a getter the struct does not have.
    UnknownGetter,
    /// Two fields with one name.
    DuplicateField,
    /// An enum variant without `#[setting(label = "…")]`.
    VariantWithoutSetting,
    /// Fields are described for structs only.
    NotAStruct,
    /// A struct whose fields have no names.
    NoNamedFields,
    /// Options are described for enums only.
    NotAnEnum,
    /// The values given do not match the item's fields or variants one for one.
    ValuesMismatch,
}

/// The parsed `#[setting(...)]`: the UI facts a type can't carry on its own.
pub struct FieldAttr {
    pub label: String,
    pub kind: Option<SettingKind>,
    pub get: Option<String>,
    pub visible_when: Option<(String, String)>,
}

pub struct FieldAttrView {
    pub label: Seq<char>,
    pub kind: Option<SettingKind>,
    pub get: Option<Seq<char>>,
    pub visible_when: Option<(Seq<char>, Seq<char>)>,
}

pub open spec fn opt_view(o: Option<String>) -> Option<Seq<char>> {
    match o {
        Some(s) => Some(s@),
        None => None,
    }
}

pub open spec fn pair_view(o: Option<(String, String)>) -> Option<(Seq<char>, Seq<char>)> {
    match o {
        Some((a, b)) => Some((a@, b@)),
        None => None,
    }
}

impl View for FieldAttr {
    type V = FieldAttrView;

    open spec fn view(&self) -> FieldAttrView {
        FieldAttrView {
            label: self.label@,
            kind: self.kind,
            get: opt_view(self.get),
            visible_when: pair_view(self.visible_when),
        }
    }
}

/// The value a field holds.
pub enum FieldValue {
    /// A `String`.
    Str(String),
    /// An `Option<String>`.
    OptionalStr(Option<String>),
    /// An `Option` of anything else: whether it is set.
    Optional(bool),
    /// A `bool`.
    Bool(bool),
    /// An enum with settings options: the options of its variants and which
    /// one is selected.
    Choice { options: Vec<EnumOption>, selected: usize },
    /// Any other type, which has no direct string form.
    Other,
}

pub enum FieldValueView {
    Str(Seq<char>),
    OptionalStr(Option<Seq<char>>),
    Optional(bool),
    Bool(bool),
    Choice { options: Seq<EnumOptionView>, selected: usize },
    Other,
}

impl View for FieldValue {
    type V = FieldValueView;

    open spec fn view(&self) -> FieldValueView {
        match self {
            FieldValue::Str(s) => FieldValueView::Str(s@),
            FieldValue::OptionalStr(o) => FieldValueView::OptionalStr(opt_view(*o)),
            FieldValue::Optional(b) => FieldValueView::Optional(*b),
            FieldValue::Bool(b) => FieldValueView::Bool(*b),
            FieldValue::Choice { options, selected } => FieldValueView::Choice {
                options: options_view(options@),
                selected: *selected,
            },
            FieldValue::Other => FieldValueView::Other,
        }
    }
}

/// What a struct instance holds for one field: its value, and what the
/// getter named by `get = "…"` returns, when the struct has it.
pub struct FieldState {
    pub value: FieldValue,
    pub getter: Option<String>,
}

pub struct FieldStateView {
    pub value: FieldValueView,
    pub getter: Option<Seq<char>>,
}

impl View for FieldState {
    type V = FieldStateView;

    open spec fn view(&self) -> FieldStateView {
        FieldStateView { value: self.value@, getter: opt_view(self.getter) }
    }
}

/// One field of a config sub-struct: its name, the segment names of its
/// type's path, that path as written (`None` when the type is not a path),
/// the text of its attributes, and what it holds.
pub struct FieldDecl {
    pub name: String,
    pub ty: Vec<String>,
    pub ty_path: Option<String>,
    pub attrs: Vec<String>,
    pub value: FieldValue,
    pub getter: Option<String>,
}

pub struct FieldDeclView {
    pub name: Seq<char>,
    pub ty: Seq<Seq<char>>,
    pub ty_path: Option<Seq<char>>,
    pub attrs: Seq<Seq<char>>,
    pub value: FieldValueView,
    pub getter: Option<Seq<char>>,
}

impl View for FieldDecl {
    type V = FieldDeclView;

    open spec fn view(&self) -> FieldDeclView {
        FieldDeclView {
            name: self.name@,
            ty: strings_view(self.ty@),
            ty_path: opt_view(self.ty_path),
            attrs: strings_view(self.attrs@),
            value: self.value@,
            getter: opt_view(self.getter),
        }
    }
}

pub open spec fn decls_view(v: Seq<FieldDecl>) -> Seq<FieldDeclView> {
    v.map_values(|d: FieldDecl| d@)
}

/// One variant of a fieldless enum: its own string form and the text of its
/// attributes.
pub struct VariantDecl {
    pub value: String,
    pub attrs: Vec<String>,
}

pub struct VariantDeclView {
    pub value: Seq<char>,
    pub attrs: Seq<Seq<char>>,
}

impl View for VariantDecl {
    type V = VariantDeclView;

    open spec fn view(&self) -> VariantDeclView {
        VariantDeclView { value: self.value@, attrs: strings_view(self.attrs@) }
    }
}

/// The arguments of the first `#[setting]` attribute: `Ok(None)` when there
/// is none, `Ok(Some(None))` when it has no parenthesized arguments.
pub open spec fn find_setting(attrs: Seq<Seq<char>>) -> Result<Option<Option<Seq<char>>>, SettingError>
    decreases attrs.len(),
{
    if attrs.len() == 0 {
        Ok(None)
    } else {
        match syn_attribute(attrs[0]) {
            None => Err(SettingError::Malformed),
            Some(a) => if a.path == "setting"@ {
                Ok(Some(a.args))
            } else {
                find_setting(attrs.drop_first())
            },
        }
    }
}

/// What the items of a `#[setting(...)]` seen so far have set.
pub struct ParseState {
    pub label: Option<Seq<char>>,
    pub kind: Option<SettingKind>,
    pub get: Option<Seq<char>>,
    pub visible_when: Option<(Seq<char>, Seq<char>)>,
}

/// One item applied to what the earlier ones set; a later item replaces an
/// earlier one of the same name.
pub open spec fn meta_step(st: ParseState, m: SettingMetaView) -> ParseState {
    match m {
        SettingMetaView::Label(l) => ParseState { label: Some(l), ..st },
        SettingMetaView::Get(g) => ParseState { get: Some(g), ..st },
        SettingMetaView::Secret => ParseState { kind: Some(SettingKind::Secret), ..st },
        SettingMetaView::Enumerated => ParseState { kind: Some(SettingKind::Enumerated), ..st },
        SettingMetaView::Text => ParseState { kind: Some(SettingKind::Text), ..st },
        SettingMetaView::VisibleWhen(w, e) => ParseState { visible_when: Some((w, e)), ..st },
    }
}

pub open spec fn parse_metas(ms: Seq<SettingMetaView>) -> ParseState
    decreases ms.len(),
{
    if ms.len() == 0 {
        ParseState { label: None, kind: None, get: None, visible_when: None }
    } else {
        meta_step(parse_metas(ms.drop_last()), ms.last())
    }
}

/// The attribute the items make: a label is required.
pub open spec fn finish_parse(st: ParseState) -> Result<FieldAttrView, SettingError> {
    match st.label {
        None => Err(SettingError::MissingLabel),
        Some(l) => Ok(
            FieldAttrView { label: l, kind: st.kind, get: st.get, visible_when: st.visible_when },
        ),
    }
}

/// The parsed `#[setting]` of an item given the text of its attributes:
/// `Ok(None)` when it carries none.
pub open spec fn spec_parse(attrs: Seq<Seq<char>>) -> Result<Option<FieldAttrView>, SettingError> {
    match find_setting(attrs) {
        Err(e) => Err(e),
        Ok(None) => Ok(None),
        Ok(Some(None)) => Err(SettingError::Malformed),
        Ok(Some(Some(args))) => match spec_setting_items(args) {
            Err(e) => Err(e),
            Ok(ms) => match finish_parse(parse_metas(ms)) {
                Err(e) => Err(e),
                Ok(a) => Ok(Some(a)),
            },
        },
    }
}

/// A type written as a path whose last segment is `Option`.
pub open spec fn is_option(ty: Seq<Seq<char>>) -> bool {
    ty.len() > 0 && ty.last() == "Option"@
}

/// A type written as the path `bool`: one plain identifier, without a
/// leading `::` or generic arguments.
pub open spec fn is_bool(ty_path: Option<Seq<char>>) -> bool {
    ty_path == Some("bool"@)
}

/// The string a string or text field shows: its getter's result when the
/// attribute names one, else the field itself (an `Option` collapses to its
/// value or the empty string).
pub open spec fn spec_string_value(attr: FieldAttrView, d: FieldDeclView) -> Result<Seq<char>, SettingError> {
    if attr.get is Some {
        match d.getter {
            Some(g) => Ok(g),
            None => Err(SettingError::UnknownGetter),
        }
    } else if is_option(d.ty) {
        match d.value {
            FieldValueView::OptionalStr(o) => Ok(
                match o {
                    Some(s) => s,
                    None => Seq::<char>::empty(),
                },
            ),
            _ => Err(SettingError::NotRenderable),
        }
    } else {
        match d.value {
            FieldValueView::Str(s) => Ok(s),
            _ => Err(SettingError::NotRenderable),
        }
    }
}

/// The kind of field a declaration with a parsed attribute describes.
pub open spec fn spec_kind(attr: FieldAttrView, d: FieldDeclView) -> Result<FieldKindView, SettingError> {
    match attr.kind {
        Some(SettingKind::Secret) => if !is_option(d.ty) {
            Err(SettingError::SecretNotOptional)
        } else {
            match d.value {
                FieldValueView::OptionalStr(o) => Ok(FieldKindView::Secret { is_set: o is Some }),
                FieldValueView::Optional(b) => Ok(FieldKindView::Secret { is_set: b }),
                _ => Err(SettingError::NotRenderable),
            }
        },
        Some(SettingKind::Enumerated) => match d.value {
            FieldValueView::Choice { options, selected } => if selected < options.len() {
                Ok(FieldKindView::Enum { value: options[selected as int].value, options })
            } else {
                Err(SettingError::NotRenderable)
            },
            _ => Err(SettingError::NotRenderable),
        },
        Some(SettingKind::Text) => match spec_string_value(attr, d) {
            Ok(v) => Ok(FieldKindView::Text { value: v }),
            Err(e) => Err(e),
        },
        None => if is_bool(d.ty_path) {
            match d.value {
                FieldValueView::Bool(b) => Ok(FieldKindView::Bool { value: b }),
                _ => Err(SettingError::NotRenderable),
            }
        } else {
            match spec_string_value(attr, d) {
                Ok(v) => Ok(FieldKindView::String { value: v }),
                Err(e) => Err(e),
            }
        },
    }
}

/// What one declaration contributes: nothing (no `#[setting]`), its parsed
/// attribute and kind, or the reason it cannot be described.
pub open spec fn decl_check(d: FieldDeclView) -> Result<Option<(FieldAttrView, FieldKindView)>, SettingError> {
    match spec_parse(d.attrs) {
        Err(e) => Err(e),
        Ok(None) => Ok(None),
        Ok(Some(a)) => match spec_kind(a, d) {
            Err(e) => Err(e),
            Ok(k) => Ok(Some((a, k))),
        },
    }
}

/// Whether a name is taken by one of the declarations.
pub open spec fn name_taken(ds: Seq<FieldDeclView>, name: Seq<char>) -> bool {
    exists|k: int| 0 <= k < ds.len() && (#[trigger] ds[k]).name == name
}

/// The first reason, in declaration order, that a struct cannot be described.
pub open spec fn first_error(ds: Seq<FieldDeclView>) -> Option<SettingError>
    decreases ds.len(),
{
    if ds.len() == 0 {
        None
    } else {
        match first_error(ds.drop_last()) {
            Some(e) => Some(e),
            None => if name_taken(ds.drop_last(), ds.last().name) {
                Some(SettingError::DuplicateField)
            } else {
                match decl_check(ds.last()) {
                    Err(e) => Some(e),
                    Ok(_) => None,
                }
            },
        }
    }
}

/// The descriptor field of a described declaration under a prefix.
pub open spec fn spec_field(
    attr: FieldAttrView,
    kind: FieldKindView,
    d: FieldDeclView,
    prefix: Seq<char>,
) -> FieldView {
    FieldView {
        key: prefix + "."@ + d.name,
        label: attr.label,
        kind: kind,
        visible_when: attr.visible_when,
    }
}

/// The descriptor fields of a struct under a prefix: one per declaration with
/// a `#[setting]`, in declaration order.
pub open spec fn spec_fields(ds: Seq<FieldDeclView>, prefix: Seq<char>) -> Seq<FieldView>
    decreases ds.len(),
{
    if ds.len() == 0 {
        Seq::empty()
    } else {
        let fs = spec_fields(ds.drop_last(), prefix);
        match decl_check(ds.last()) {
            Ok(Some((a, k))) => fs.push(spec_field(a, k, ds.last(), prefix)),
            _ => fs,
        }
    }
}

/// The options of an enum: one per variant, in declaration order, each
/// valued by the variant's own string form and labelled by its `#[setting]`.
pub open spec fn spec_options(vs: Seq<VariantDeclView>) -> Result<Seq<EnumOptionView>, SettingError>
    decreases vs.len(),
{
    if vs.len() == 0 {
        Ok(Seq::empty())
    } else {
        match spec_options(vs.drop_last()) {
            Err(e) => Err(e),
            Ok(os) => match spec_parse(vs.last().attrs) {
                Err(e) => Err(e),
                Ok(None) => Err(SettingError::VariantWithoutSetting),
                Ok(Some(a)) => Ok(os.push(EnumOptionView { value: vs.last().value, label: a.label })),
            },
        }
    }
}

/// The declarations of a struct read from source: each field paired with
/// what the instance holds for it.
pub open spec fn struct_decls(fs: Seq<RawFieldView>, vals: Seq<FieldStateView>) -> Seq<FieldDeclView> {
    Seq::new(
        fs.len(),
        |i: int|
            FieldDeclView {
                name: fs[i].name,
                ty: fs[i].ty,
                ty_path: fs[i].ty_path,
                attrs: fs[i].attrs,
                value: vals[i].value,
                getter: vals[i].getter,
            },
    )
}

/// The fields read from their texts, or `None` when one of them is not a
/// field.
pub open spec fn parsed_fields(texts: Seq<Seq<char>>) -> Option<Seq<RawFieldView>>
    decreases texts.len(),
{
    if texts.len() == 0 {
        Some(Seq::empty())
    } else {
        match (parsed_fields(texts.drop_last()), syn_field(texts.last())) {
            (Some(fs), Some(f)) => Some(fs.push(f)),
            _ => None,
        }
    }
}

/// The variants read from their texts, or `None` when one of them is not a
/// variant.
pub open spec fn parsed_variants(texts: Seq<Seq<char>>) -> Option<Seq<RawVariantView>>
    decreases texts.len(),
{
    if texts.len() == 0 {
        Some(Seq::empty())
    } else {
        match (parsed_variants(texts.drop_last()), syn_variant(texts.last())) {
            (Some(vs), Some(v)) => Some(vs.push(v)),
            _ => None,
        }
    }
}

/// The described declarations of a struct given by its source text, or why
/// it cannot be described.
pub open spec fn spec_derive_fields(src: Seq<char>, vals: Seq<FieldStateView>) -> Result<Seq<FieldDeclView>, SettingError> {
    match syn_item(src) {
        None => Err(SettingError::Malformed),
        Some(RawItemView::NamedStruct(texts)) => if texts.len() != vals.len() {
            Err(SettingError::ValuesMismatch)
        } else {
            match parsed_fields(texts) {
                None => Err(SettingError::Malformed),
                Some(fs) => {
                    let ds = struct_decls(fs, vals);
                    match first_error(ds) {
                        Some(e) => Err(e),
                        None => Ok(ds),
                    }
                },
            }
        },
        Some(RawItemView::UnnamedStruct) => Err(SettingError::NoNamedFields),
        Some(RawItemView::UnitStruct) => Err(SettingError::NoNamedFields),
        Some(_) => Err(SettingError::NotAStruct),
    }
}

/// The variants of an enum read from source, each paired with its own string
/// form.
pub open spec fn enum_variants(vs: Seq<RawVariantView>, values: Seq<Seq<char>>) -> Seq<VariantDeclView> {
    Seq::new(vs.len(), |i: int| VariantDeclView { value: values[i], attrs: vs[i].attrs })
}

/// The options of an enum given by its source text, or why it has none.
pub open spec fn spec_derive_options(src: Seq<char>, values: Seq<Seq<char>>) -> Result<Seq<EnumOptionView>, SettingError> {
    match syn_item(src) {
        None => Err(SettingError::Malformed),
        Some(RawItemView::Enum(texts)) => if texts.len() != values.len() {
            Err(SettingError::ValuesMismatch)
        } else {
            match parsed_variants(texts) {
                None => Err(SettingError::Malformed),
                Some(vs) => spec_options(enum_variants(vs, values)),
            }
        },
        Some(_) => Err(SettingError::NotAnEnum),
    }
}

/// A config sub-struct whose declarations all describe: names are distinct,
/// each field with a `#[setting]` parses and its value fits the kind it was
/// given.
pub struct SettingsStruct {
    decls: Vec<FieldDecl>,
}

impl SettingsStruct {
    #[verifier::type_invariant]
    spec fn well_formed(self) -> bool {
        first_error(decls_view(self.decls@)) is None
    }
}

impl View for SettingsStruct {
    type V = Seq<FieldDeclView>;

    closed spec fn view(&self) -> Seq<FieldDeclView> {
        decls_view(self.decls@)
    }
}

/// Once a prefix of the declarations has an error, the whole struct has it.
proof fn lemma_first_error_sticks(ds: Seq<FieldDeclView>, k: int)
    requires
        0 <= k <= ds.len(),
        first_error(ds.take(k)) is Some,
    ensures
        first_error(ds) == first_error(ds.take(k)),
    decreases ds.len(),
{
    if k == ds.len() {
        assert(ds.take(k) =~= ds);
    } else {
        assert(ds.drop_last().take(k) =~= ds.take(k));
        lemma_first_error_sticks(ds.drop_last(), k);
    }
}

/// Once a prefix of the variants has an error, the whole enum has it.
proof fn lemma_options_error_sticks(vs: Seq<VariantDeclView>, k: int)
    requires
        0 <= k <= vs.len(),
        spec_options(vs.take(k)) is Err,
    ensures
        spec_options(vs) == spec_options(vs.take(k)),
    decreases vs.len(),
{
    if k == vs.len() {
        assert(vs.take(k) =~= vs);
    } else {
        assert(vs.drop_last().take(k) =~= vs.take(k));
        lemma_options_error_sticks(vs.drop_last(), k);
    }
}

/// In a struct without errors, every declaration checks and no two share a
/// name.
proof fn lemma_no_error_each_checks(ds: Seq<FieldDeclView>, i: int)
    requires
        first_error(ds) is None,
        0 <= i < ds.len(),
    ensures
        decl_check(ds[i]) is Ok,
        forall|k: int| 0 <= k < i ==> ds[k].name != ds[i].name,
    decreases ds.len(),
{
    if i < ds.len() - 1 {
        lemma_no_error_each_checks(ds.drop_last(), i);
        assert(ds.drop_last()[i] == ds[i]);
        assert forall|k: int| 0 <= k < i implies ds[k].name != ds[i].name by {
            assert(ds.drop_last()[k] == ds[k]);
        }
    } else {
        assert forall|k: int| 0 <= k < i implies ds[k].name != ds[i].name by {
            assert(ds.drop_last()[k] == ds[k]);
            if ds[k].name == ds[i].name {
                assert(name_taken(ds.drop_last(), ds.last().name));
            }
        }
    }
}

/// The arguments of the first `#[setting]` attribute, as [`find_setting`]
/// says.
fn setting_args(attrs: &Vec<String>) -> (r: Result<Option<Option<String>>, SettingError>)
    ensures
        match r {
            Ok(None) => find_setting(strings_view(attrs@)) == Ok::<Option<Option<Seq<char>>>, SettingError>(None),
            Ok(Some(a)) => find_setting(strings_view(attrs@)) == Ok::<Option<Option<Seq<char>>>, SettingError>(Some(opt_view(a))),
            Err(e) => find_setting(strings_view(attrs@)) == Err::<Option<Option<Seq<char>>>, SettingError>(e),
        },
{
    let ghost sv = strings_view(attrs@);
    let setting = String::from_str("setting");
    let mut i: usize = 0;
    assert(sv.skip(0) =~= sv);
    while i < attrs.len()
        invariant
            sv == strings_view(attrs@),
            setting@ == "setting"@,
            0 <= i <= attrs.len(),
            find_setting(sv) == find_setting(sv.skip(i as int)),
        decreases attrs.len() - i,
    {
        assert(sv.skip(i as int)[0] == attrs@[i as int]@);
        assert(sv.skip(i as int).drop_first() =~= sv.skip(i + 1));
        match read_attribute(attrs[i].as_str()) {
            None => {
                return Err(SettingError::Malformed);
            },
            Some(a) => {
                let is_setting = a.path == setting;
                if is_setting {
                    return Ok(Some(a.args));
                }
            },
        }
        i = i + 1;
    }
    Ok(None)
}

/// The attribute the items of one `#[setting(...)]` make.
fn fold_items(ms: &Vec<SettingMeta>) -> (r: Result<FieldAttr, SettingError>)
    ensures
        match r {
            Ok(a) => finish_parse(parse_metas(metas_view(ms@))) == Ok::<FieldAttrView, SettingError>(a@),
            Err(e) => finish_parse(parse_metas(metas_view(ms@))) == Err::<FieldAttrView, SettingError>(e),
        },
{
    let ghost mv = metas_view(ms@);
    let mut label: Option<String> = None;
    let mut kind: Option<SettingKind> = None;
    let mut get: Option<String> = None;
    let mut visible_when: Option<(String, String)> = None;
    let mut i: usize = 0;
    while i < ms.len()
        invariant
            mv == metas_view(ms@),
            0 <= i <= ms.len(),
            parse_metas(mv.take(i as int)) == (ParseState {
                label: opt_view(label),
                kind,
                get: opt_view(get),
                visible_when: pair_view(visible_when),
            }),
        decreases ms.len() - i,
    {
        assert(mv.take(i + 1).drop_last() =~= mv.take(i as int));
        match &ms[i] {
            SettingMeta::Label(l) => {
                label = Some(l.clone());
            },
            SettingMeta::Get(g) => {
                get = Some(g.clone());
            },
            SettingMeta::Secret => {
                kind = Some(SettingKind::Secret);
            },
            SettingMeta::Enumerated => {
                kind = Some(SettingKind::Enumerated);
            },
            SettingMeta::Text => {
                kind = Some(SettingKind::Text);
            },
            SettingMeta::VisibleWhen(w, e) => {
                visible_when = Some((w.clone(), e.clone()));
            },
        }
        i = i + 1;
    }
    assert(mv.take(ms.len() as int) =~= mv);
    match label {
        None => Err(SettingError::MissingLabel),
        Some(l) => Ok(FieldAttr { label: l, kind, get, visible_when }),
    }
}

impl FieldAttr {
    /// The parsed `#[setting]` of an item given the text of its attributes:
    /// `Ok(None)` when the item carries none (no attribute whose path is the
    /// single plain identifier `setting`; it is not exposed), the attribute
    /// when its arguments are valid, and the first problem otherwise. Where
    /// the derive stops expansion with a panic (an unknown item, an
    /// incomplete `visible_when`, a missing label, malformed arguments), the
    /// parse returns the matching error instead.
    pub fn parse(attrs: &Vec<String>) -> (r: Result<Option<FieldAttr>, SettingError>)
        ensures
            match r {
                Ok(None) => spec_parse(strings_view(attrs@)) == Ok::<Option<FieldAttrView>, SettingError>(None),
                Ok(Some(a)) => spec_parse(strings_view(attrs@)) == Ok::<Option<FieldAttrView>, SettingError>(Some(a@)),
                Err(e) => spec_parse(strings_view(attrs@)) == Err::<Option<FieldAttrView>, SettingError>(e),
            },
    {
        match setting_args(attrs) {
            Err(e) => Err(e),
            Ok(None) => Ok(None),
            Ok(Some(None)) => Err(SettingError::Malformed),
            Ok(Some(Some(args))) => match parse_setting_items(args.as_str()) {
                Err(e) => Err(e),
                Ok(ms) => match fold_items(&ms) {
                    Err(e) => Err(e),
                    Ok(a) => Ok(Some(a)),
                },
            },
        }
    }
}

fn ty_is_option(ty: &Vec<String>) -> (b: bool)
    ensures
        b == is_option(strings_view(ty@)),
{
    if ty.len() == 0 {
        return false;
    }
    let r = ty[ty.len() - 1] == String::from_str("Option");
    assert(strings_view(ty@).last() == ty@[ty.len() - 1]@);
    r
}

fn ty_is_bool(ty_path: &Option<String>) -> (b: bool)
    ensures
        b == is_bool(opt_view(*ty_path)),
{
    match ty_path {
        Some(t) => *t == String::from_str("bool"),
        None => false,
    }
}

/// The string a string or text field shows.
fn string_value(attr: &FieldAttr, d: &FieldDecl) -> (r: Result<String, SettingError>)
    ensures
        match r {
            Ok(s) => spec_string_value(attr@, d@) == Ok::<Seq<char>, SettingError>(s@),
            Err(e) => spec_string_value(attr@, d@) == Err::<Seq<char>, SettingError>(e),
        },
{
    if attr.get.is_some() {
        match &d.getter {
            Some(g) => Ok(g.clone()),
            None => Err(SettingError::UnknownGetter),
        }
    } else if ty_is_option(&d.ty) {
        match &d.value {
            FieldValue::OptionalStr(o) => match o {
                Some(s) => Ok(s.clone()),
                None => Ok(String::new()),
            },
            _ => Err(SettingError::NotRenderable),
        }
    } else {
        match &d.value {
            FieldValue::Str(s) => Ok(s.clone()),
            _ => Err(SettingError::NotRenderable),
        }
    }
}

/// A copy of a list of options.
fn copy_options(options: &Vec<EnumOption>) -> (r: Vec<EnumOption>)
    ensures
        options_view(r@) == options_view(options@),
{
    let mut r: Vec<EnumOption> = Vec::new();
    let mut i: usize = 0;
    while i < options.len()
        invariant
            0 <= i <= options.len(),
            options_view(r@) == options_view(options@).take(i as int),
        decreases options.len() - i,
    {
        let o = EnumOption { value: options[i].value.clone(), label: options[i].label.clone() };
        assert(o@ == options@[i as int]@);
        let ghost old_r = r@;
        r.push(o);
        assert(options_view(r@) =~= options_view(old_r).push(o@));
        assert(options_view(r@) =~= options_view(options@).take(i + 1));
        i = i + 1;
    }
    assert(options_view(options@).take(options.len() as int) =~= options_view(options@));
    r
}

/// The kind of field a declaration with a parsed attribute describes.
pub fn kind_expr(attr: &FieldAttr, d: &FieldDecl) -> (r: Result<FieldKind, SettingError>)
    ensures
        match r {
            Ok(k) => spec_kind(attr@, d@) == Ok::<FieldKindView, SettingError>(k@),
            Err(e) => spec_kind(attr@, d@) == Err::<FieldKindView, SettingError>(e),
        },
{
    match attr.kind {
        Some(SettingKind::Secret) => if !ty_is_option(&d.ty) {
            Err(SettingError::SecretNotOptional)
        } else {
            match &d.value {
                FieldValue::OptionalStr(o) => Ok(FieldKind::Secret { is_set: o.is_some() }),
                FieldValue::Optional(b) => Ok(FieldKind::Secret { is_set: *b }),
                _ => Err(SettingError::NotRenderable),
            }
        },
        Some(SettingKind::Enumerated) => match &d.value {
            FieldValue::Choice { options, selected } => if *selected < options.len() {
                Ok(
                    FieldKind::Enum {
                        value: options[*selected].value.clone(),
                        options: copy_options(options),
                    },
                )
            } else {
                Err(SettingError::NotRenderable)
            },
            _ => Err(SettingError::NotRenderable),
        },
        Some(SettingKind::Text) => match string_value(attr, d) {
            Ok(v) => Ok(FieldKind::Text { value: v }),
            Err(e) => Err(e),
        },
        None => if ty_is_bool(&d.ty_path) {
            match &d.value {
                FieldValue::Bool(b) => Ok(FieldKind::Bool { value: *b }),
                _ => Err(SettingError::NotRenderable),
            }
        } else {
            match string_value(attr, d) {
                Ok(v) => Ok(FieldKind::String { value: v }),
                Err(e) => Err(e),
            }
        },
    }
}

/// What one declaration contributes, as [`decl_check`] says.
fn check_decl(d: &FieldDecl) -> (r: Result<Option<(FieldAttr, FieldKind)>, SettingError>)
    ensures
        match r {
            Err(e) => decl_check(d@) == Err::<Option<(FieldAttrView, FieldKindView)>, SettingError>(e),
            Ok(None) => decl_check(d@) == Ok::<Option<(FieldAttrView, FieldKindView)>, SettingError>(None),
            Ok(Some((a, k))) => decl_check(d@) == Ok::<Option<(FieldAttrView, FieldKindView)>, SettingError>(Some((a@, k@))),
        },
{
    match FieldAttr::parse(&d.attrs) {
        Err(e) => Err(e),
        Ok(None) => Ok(None),
        Ok(Some(a)) => match kind_expr(&a, d) {
            Err(e) => Err(e),
            Ok(k) => Ok(Some((a, k))),
        },
    }
}

/// Whether a declaration before `i` has the name of declaration `i`.
fn name_before(decls: &Vec<FieldDecl>, i: usize) -> (b: bool)
    requires
        i < decls.len(),
    ensures
        b == name_taken(decls_view(decls@).take(i as int), decls@[i as int].name@),
{
    let ghost dv = decls_view(decls@);
    let mut k: usize = 0;
    while k < i
        invariant
            i < decls.len(),
            dv == decls_view(decls@),
            k <= i,
            forall|m: int| 0 <= m < k ==> dv[m].name != decls@[i as int].name@,
        decreases i - k,
    {
        if decls[k].name == decls[i].name {
            assert(dv.take(i as int)[k as int].name == decls@[i as int].name@);
            return true;
        }
        k = k + 1;
    }
    assert forall|m: int| 0 <= m < i implies (#[trigger] dv.take(i as int)[m]).name != decls@[i as int].name@ by {
        assert(dv.take(i as int)[m] == dv[m]);
    }
    false
}

impl SettingsStruct {
    /// Checks a config sub-struct's declarations once: names must be
    /// distinct, and every field with a `#[setting]` must parse and fit the
    /// kind it was given. The first problem, in declaration order, is
    /// reported.
    pub fn new(decls: Vec<FieldDecl>) -> (r: Result<SettingsStruct, SettingError>)
        ensures
            match r {
                Ok(s) => first_error(decls_view(decls@)) is None && s@ == decls_view(decls@),
                Err(e) => first_error(decls_view(decls@)) == Some(e),
            },
    {
        let ghost dv = decls_view(decls@);
        let mut i: usize = 0;
        while i < decls.len()
            invariant
                dv == decls_view(decls@),
                0 <= i <= decls.len(),
                first_error(dv.take(i as int)) is None,
            decreases decls.len() - i,
        {
            assert(dv.take(i + 1).drop_last() =~= dv.take(i as int));
            assert(dv.take(i + 1).last() == dv[i as int]);
            if name_before(&decls, i) {
                proof {
                    lemma_first_error_sticks(dv, i + 1);
                }
                return Err(SettingError::DuplicateField);
            }
            match check_decl(&decls[i]) {
                Err(e) => {
                    proof {
                        lemma_first_error_sticks(dv, i + 1);
                    }
                    return Err(e);
                },
                Ok(_) => {},
            }
            i = i + 1;
        }
        assert(dv.take(decls.len() as int) =~= dv);
        Ok(SettingsStruct { decls })
    }

    /// One descriptor field per `#[setting]`-annotated declaration, in
    /// declaration order, keyed `<prefix>.<field>`; the keys are distinct.
    pub fn settings_fields(&self, prefix: &str) -> (r: Vec<Field>)
        ensures
            fields_view(r@) == spec_fields(self@, prefix@),
            keys_distinct(spec_fields(self@, prefix@)),
            keys_prefixed(spec_fields(self@, prefix@), prefix@),
    {
        proof {
            use_type_invariant(self);
            law_keys_distinct_and_prefixed(self@, prefix@);
        }
        let ghost ds = decls_view(self.decls@);
        let mut r: Vec<Field> = Vec::new();
        let mut i: usize = 0;
        while i < self.decls.len()
            invariant
                ds == decls_view(self.decls@),
                0 <= i <= self.decls.len(),
                first_error(ds) is None,
                fields_view(r@) == spec_fields(ds.take(i as int), prefix@),
            decreases self.decls.len() - i,
        {
            assert(ds.take(i + 1).drop_last() =~= ds.take(i as int));
            assert(ds.take(i + 1).last() == ds[i as int]);
            proof {
                lemma_no_error_each_checks(ds, i as int);
            }
            let d = &self.decls[i];
            match check_decl(d) {
                Err(_) => {
                    assert(false);
                },
                Ok(None) => {},
                Ok(Some((a, k))) => {
                    let mut key = String::from_str(prefix);
                    key.append(".");
                    key.append(d.name.as_str());
                    let f = Field { key, label: a.label, kind: k, visible_when: a.visible_when };
                    let ghost before = r@;
                    r.push(f);
                    assert(fields_view(r@) =~= fields_view(before).push(f@));
                },
            }
            i = i + 1;
        }
        assert(ds.take(self.decls.len() as int) =~= ds);
        r
    }
}

/// Once a prefix of the field texts fails to read, the whole list fails.
proof fn lemma_parsed_fields_sticks(texts: Seq<Seq<char>>, k: int)
    requires
        0 <= k <= texts.len(),
        parsed_fields(texts.take(k)) is None,
    ensures
        parsed_fields(texts) is None,
    decreases texts.len(),
{
    if k == texts.len() {
        assert(texts.take(k) =~= texts);
    } else {
        assert(texts.drop_last().take(k) =~= texts.take(k));
        lemma_parsed_fields_sticks(texts.drop_last(), k);
    }
}

/// Once a prefix of the variant texts fails to read, the whole list fails.
proof fn lemma_parsed_variants_sticks(texts: Seq<Seq<char>>, k: int)
    requires
        0 <= k <= texts.len(),
        parsed_variants(texts.take(k)) is None,
    ensures
        parsed_variants(texts) is None,
    decreases texts.len(),
{
    if k == texts.len() {
        assert(texts.take(k) =~= texts);
    } else {
        assert(texts.drop_last().take(k) =~= texts.take(k));
        lemma_parsed_variants_sticks(texts.drop_last(), k);
    }
}

/// Reads each field from its text, as [`parsed_fields`] says.
fn read_fields(texts: &Vec<String>) -> (r: Option<Vec<RawField>>)
    ensures
        match r {
            Some(fs) => parsed_fields(strings_view(texts@)) == Some(raw_fields_view(fs@)) && fs.len() == texts.len(),
            None => parsed_fields(strings_view(texts@)) is None,
        },
{
    let ghost sv = strings_view(texts@);
    let mut fs: Vec<RawField> = Vec::new();
    let mut i: usize = 0;
    assert(raw_fields_view(fs@) =~= Seq::<RawFieldView>::empty());
    while i < texts.len()
        invariant
            sv == strings_view(texts@),
            0 <= i <= texts.len(),
            parsed_fields(sv.take(i as int)) == Some(raw_fields_view(fs@)),
            fs.len() == i,
        decreases texts.len() - i,
    {
        assert(sv.take(i + 1).drop_last() =~= sv.take(i as int));
        assert(sv.take(i + 1).last() == texts@[i as int]@);
        match read_field(texts[i].as_str()) {
            None => {
                proof {
                    lemma_parsed_fields_sticks(sv, i + 1);
                }
                return None;
            },
            Some(f) => {
                let ghost before = fs@;
                fs.push(f);
                assert(raw_fields_view(fs@) =~= raw_fields_view(before).push(f@));
            },
        }
        i = i + 1;
    }
    assert(sv.take(texts.len() as int) =~= sv);
    Some(fs)
}

/// Reads each variant from its text, as [`parsed_variants`] says.
fn read_variants(texts: &Vec<String>) -> (r: Option<Vec<RawVariant>>)
    ensures
        match r {
            Some(vs) => parsed_variants(strings_view(texts@)) == Some(raw_variants_view(vs@)) && vs.len() == texts.len(),
            None => parsed_variants(strings_view(texts@)) is None,
        },
{
    let ghost sv = strings_view(texts@);
    let mut vs: Vec<RawVariant> = Vec::new();
    let mut i: usize = 0;
    assert(raw_variants_view(vs@) =~= Seq::<RawVariantView>::empty());
    while i < texts.len()
        invariant
            sv == strings_view(texts@),
            0 <= i <= texts.len(),
            parsed_variants(sv.take(i as int)) == Some(raw_variants_view(vs@)),
            vs.len() == i,
        decreases texts.len() - i,
    {
        assert(sv.take(i + 1).drop_last() =~= sv.take(i as int));
        assert(sv.take(i + 1).last() == texts@[i as int]@);
        match read_variant(texts[i].as_str()) {
            None => {
                proof {
                    lemma_parsed_variants_sticks(sv, i + 1);
                }
                return None;
            },
            Some(v) => {
                let ghost before = vs@;
                vs.push(v);
                assert(raw_variants_view(vs@) =~= raw_variants_view(before).push(v@));
            },
        }
        i = i + 1;
    }
    assert(sv.take(texts.len() as int) =~= sv);
    Some(vs)
}

/// The views of a list of field states.
pub open spec fn states_view(v: Seq<FieldState>) -> Seq<FieldStateView> {
    v.map_values(|s: FieldState| s@)
}

/// The views of a list of variant declarations.
pub open spec fn variants_view(v: Seq<VariantDecl>) -> Seq<VariantDeclView> {
    v.map_values(|d: VariantDecl| d@)
}

/// Reads a struct's source text and checks its fields once, pairing each
/// field, in order, with what the instance holds for it. Enums and unions
/// are refused, as are structs without named fields.
pub fn derive_settings_fields(src: &str, values: Vec<FieldState>) -> (r: Result<SettingsStruct, SettingError>)
    ensures
        match r {
            Ok(s) => spec_derive_fields(src@, states_view(values@)) == Ok::<Seq<FieldDeclView>, SettingError>(s@),
            Err(e) => spec_derive_fields(src@, states_view(values@)) == Err::<Seq<FieldDeclView>, SettingError>(e),
        },
{
    let ghost vv = states_view(values@);
    match read_item(src) {
        None => Err(SettingError::Malformed),
        Some(RawItem::Struct(RawFields::Named(texts))) => {
            if texts.len() != values.len() {
                return Err(SettingError::ValuesMismatch);
            }
            let fields = match read_fields(&texts) {
                None => {
                    return Err(SettingError::Malformed);
                },
                Some(fields) => fields,
            };
            let ghost fv = raw_fields_view(fields@);
            assert(fv.len() == fields@.len());
            let n = fields.len();
            let mut fields = fields;
            let mut values = values;
            let mut decls: Vec<FieldDecl> = Vec::new();
            let mut i: usize = 0;
            while i < n
                invariant
                    fv.len() == n,
                    vv.len() == n,
                    i <= n,
                    raw_fields_view(fields@) == fv.skip(i as int),
                    states_view(values@) == vv.skip(i as int),
                    decls.len() == i,
                    decls_view(decls@) == struct_decls(fv, vv).take(i as int),
                decreases n - i,
            {
                let ghost old_f = fields@;
                let ghost old_v = values@;
                assert(raw_fields_view(old_f).len() == old_f.len());
                assert(states_view(old_v).len() == old_v.len());
                assert(raw_fields_view(old_f)[0] == fv[i as int]);
                assert(states_view(old_v)[0] == vv[i as int]);
                let f = fields.remove(0);
                let v = values.remove(0);
                assert(f@ == fv[i as int]);
                assert(v@ == vv[i as int]);
                assert forall|k: int| 0 <= k < fields@.len() implies #[trigger] fields@[k] == old_f[k + 1] by {}
                assert forall|k: int| 0 <= k < values@.len() implies #[trigger] values@[k] == old_v[k + 1] by {}
                let d = FieldDecl {
                    name: f.name,
                    ty: f.ty,
                    ty_path: f.ty_path,
                    attrs: f.attrs,
                    value: v.value,
                    getter: v.getter,
                };
                assert(d@ == struct_decls(fv, vv)[i as int]);
                let ghost before = decls@;
                decls.push(d);
                assert forall|k: int| 0 <= k <= i implies #[trigger] decls_view(decls@)[k] == struct_decls(fv, vv).take(i + 1)[k] by {
                    if k < i {
                        assert(decls@[k] == before[k]);
                        assert(decls_view(before)[k] == struct_decls(fv, vv).take(i as int)[k]);
                    }
                }
                assert(decls_view(decls@) =~= struct_decls(fv, vv).take(i + 1));
                assert forall|k: int| 0 <= k < fields@.len() implies #[trigger] raw_fields_view(fields@)[k] == fv.skip(i + 1)[k] by {
                    assert(raw_fields_view(old_f)[k + 1] == old_f[k + 1]@);
                    assert(raw_fields_view(old_f)[k + 1] == fv.skip(i as int)[k + 1]);
                }
                assert(raw_fields_view(fields@) =~= fv.skip(i + 1));
                assert forall|k: int| 0 <= k < values@.len() implies #[trigger] states_view(values@)[k] == vv.skip(i + 1)[k] by {
                    assert(states_view(old_v)[k + 1] == old_v[k + 1]@);
                    assert(states_view(old_v)[k + 1] == vv.skip(i as int)[k + 1]);
                }
                assert(states_view(values@) =~= vv.skip(i + 1));
                i = i + 1;
            }
            assert(struct_decls(fv, vv).take(n as int) =~= struct_decls(fv, vv));
            SettingsStruct::new(decls)
        },
        Some(RawItem::Struct(RawFields::Unnamed)) => Err(SettingError::NoNamedFields),
        Some(RawItem::Struct(RawFields::Unit)) => Err(SettingError::NoNamedFields),
        Some(RawItem::Enum(_)) => Err(SettingError::NotAStruct),
        Some(RawItem::Union) => Err(SettingError::NotAStruct),
    }
}

/// The dropdown options of a fieldless enum's variants: one per variant, in
/// declaration order, valued by the variant's own string form and labelled
/// by its `#[setting(label = "…")]`. Every variant needs such an attribute.
pub fn settings_options(variants: &Vec<VariantDecl>) -> (r: Result<Vec<EnumOption>, SettingError>)
    ensures
        match r {
            Ok(os) => spec_options(variants_view(variants@)) == Ok::<Seq<EnumOptionView>, SettingError>(options_view(os@)),
            Err(e) => spec_options(variants_view(variants@)) == Err::<Seq<EnumOptionView>, SettingError>(e),
        },
{
    let ghost vs = variants_view(variants@);
    let mut options: Vec<EnumOption> = Vec::new();
    let mut i: usize = 0;
    assert(vs.take(0) =~= Seq::<VariantDeclView>::empty());
    assert(options_view(options@) =~= Seq::<EnumOptionView>::empty());
    while i < variants.len()
        invariant
            vs == variants_view(variants@),
            0 <= i <= variants.len(),
            spec_options(vs.take(i as int)) == Ok::<Seq<EnumOptionView>, SettingError>(options_view(options@)),
        decreases variants.len() - i,
    {
        assert(vs.take(i + 1).drop_last() =~= vs.take(i as int));
        assert(vs.take(i + 1).last() == vs[i as int]);
        let v = &variants[i];
        match FieldAttr::parse(&v.attrs) {
            Err(e) => {
                proof {
                    lemma_options_error_sticks(vs, i + 1);
                }
                return Err(e);
            },
            Ok(None) => {
                proof {
                    lemma_options_error_sticks(vs, i + 1);
                }
                return Err(SettingError::VariantWithoutSetting);
            },
            Ok(Some(a)) => {
                let ghost before = options_view(options@);
                options.push(EnumOption { value: v.value.clone(), label: a.label });
                assert(options_view(options@) =~= before.push(options@.last()@));
            },
        }
        i = i + 1;
    }
    assert(vs.take(variants.len() as int) =~= vs);
    Ok(options)
}

/// Reads a fieldless enum's source text and gives its dropdown options, each
/// variant, in order, paired with its own string form. Structs and unions
/// are refused.
pub fn derive_settings_options(src: &str, values: &Vec<String>) -> (r: Result<Vec<EnumOption>, SettingError>)
    ensures
        match r {
            Ok(os) => spec_derive_options(src@, strings_view(values@)) == Ok::<Seq<EnumOptionView>, SettingError>(options_view(os@)),
            Err(e) => spec_derive_options(src@, strings_view(values@)) == Err::<Seq<EnumOptionView>, SettingError>(e),
        },
{
    match read_item(src) {
        None => Err(SettingError::Malformed),
        Some(RawItem::Enum(texts)) => {
            if texts.len() != values.len() {
                return Err(SettingError::ValuesMismatch);
            }
            let vs = match read_variants(&texts) {
                None => {
                    return Err(SettingError::Malformed);
                },
                Some(vs) => vs,
            };
            let ghost rv = raw_variants_view(vs@);
            assert(rv.len() == vs@.len());
            let n = vs.len();
            let mut vs = vs;
            let mut decls: Vec<VariantDecl> = Vec::new();
            let mut i: usize = 0;
            while i < n
                invariant
                    rv.len() == n,
                    values.len() == n,
                    i <= n,
                    raw_variants_view(vs@) == rv.skip(i as int),
                    decls.len() == i,
                    variants_view(decls@) == enum_variants(rv, strings_view(values@)).take(i as int),
                decreases n - i,
            {
                let ghost old_vs = vs@;
                assert(raw_variants_view(old_vs).len() == old_vs.len());
                assert(raw_variants_view(old_vs)[0] == rv[i as int]);
                let v = vs.remove(0);
                assert(v@ == rv[i as int]);
                assert forall|k: int| 0 <= k < vs@.len() implies #[trigger] vs@[k] == old_vs[k + 1] by {}
                let d = VariantDecl { value: values[i].clone(), attrs: v.attrs };
                assert(strings_view(values@)[i as int] == values@[i as int]@);
                assert(d@ == enum_variants(rv, strings_view(values@))[i as int]);
                let ghost before = decls@;
                decls.push(d);
                assert forall|k: int| 0 <= k <= i implies #[trigger] variants_view(decls@)[k] == enum_variants(rv, strings_view(values@)).take(i + 1)[k] by {
                    if k < i {
                        assert(decls@[k] == before[k]);
                        assert(variants_view(before)[k] == enum_variants(rv, strings_view(values@)).take(i as int)[k]);
                    }
                }
                assert(variants_view(decls@) =~= enum_variants(rv, strings_view(values@)).take(i + 1));
                assert forall|k: int| 0 <= k < vs@.len() implies #[trigger] raw_variants_view(vs@)[k] == rv.skip(i + 1)[k] by {
                    assert(raw_variants_view(old_vs)[k + 1] == old_vs[k + 1]@);
                    assert(raw_variants_view(old_vs)[k + 1] == rv.skip(i as int)[k + 1]);
                }
                assert(raw_variants_view(vs@) =~= rv.skip(i + 1));
                i = i + 1;
            }
            assert(enum_variants(rv, strings_view(values@)).take(n as int) =~= enum_variants(rv, strings_view(values@)));
            settings_options(&decls)
        },
        Some(RawItem::Struct(_)) => Err(SettingError::NotAnEnum),
        Some(RawItem::Union) => Err(SettingError::NotAnEnum),
    }
}

/// Every key of a list of fields is distinct.
pub open spec fn keys_distinct(fs: Seq<FieldView>) -> bool {
    forall|i: int, j: int| 0 <= i < j < fs.len() ==> (#[trigger] fs[i]).key != (#[trigger] fs[j]).key
}

/// Every key of a list of fields is `<prefix>.<something>`.
pub open spec fn keys_prefixed(fs: Seq<FieldView>, prefix: Seq<char>) -> bool {
    forall|i: int|
        0 <= i < fs.len() ==> {
            &&& (#[trigger] fs[i]).key.len() > prefix.len()
            &&& fs[i].key.subrange(0, prefix.len() as int) == prefix
            &&& fs[i].key[prefix.len() as int] == '.'
        }
}

/// Two keys under one prefix are equal only for equal names.
proof fn lemma_key_injective(prefix: Seq<char>, a: Seq<char>, b: Seq<char>)
    requires
        prefix + "."@ + a == prefix + "."@ + b,
    ensures
        a == b,
{
    reveal_strlit(".");
    let n: int = prefix.len() as int + 1;
    assert((prefix + "."@ + a).skip(n) =~= a);
    assert((prefix + "."@ + b).skip(n) =~= b);
}

/// The keys of a described struct are distinct, and each is
/// `<prefix>.<name>` for the name of one of its declarations.
pub proof fn law_keys_distinct_and_prefixed(ds: Seq<FieldDeclView>, prefix: Seq<char>)
    requires
        first_error(ds) is None,
    ensures
        keys_distinct(spec_fields(ds, prefix)),
        keys_prefixed(spec_fields(ds, prefix), prefix),
        forall|j: int|
            0 <= j < spec_fields(ds, prefix).len() ==> exists|k: int|
                0 <= k < ds.len() && (#[trigger] spec_fields(ds, prefix)[j]).key == prefix + "."@
                    + ds[k].name,
    decreases ds.len(),
{
    reveal_strlit(".");
    if ds.len() > 0 {
        let prev = ds.drop_last();
        law_keys_distinct_and_prefixed(prev, prefix);
        let fs = spec_fields(ds, prefix);
        let pfs = spec_fields(prev, prefix);
        let last = ds.last();
        match decl_check(last) {
            Ok(Some((a, k))) => {
                let nk = prefix + "."@ + last.name;
                assert(fs == pfs.push(spec_field(a, k, last, prefix)));
                assert forall|j: int| 0 <= j < pfs.len() implies (#[trigger] fs[j]).key != nk by {
                    assert(fs[j] == pfs[j]);
                    let k0 = choose|k0: int| 0 <= k0 < prev.len() && pfs[j].key == prefix + "."@ + prev[k0].name;
                    if pfs[j].key == nk {
                        lemma_key_injective(prefix, prev[k0].name, last.name);
                        assert(name_taken(prev, last.name));
                    }
                }
                assert forall|j: int| 0 <= j < fs.len() implies exists|k: int|
                    0 <= k < ds.len() && (#[trigger] fs[j]).key == prefix + "."@ + ds[k].name by {
                    if j < pfs.len() {
                        assert(fs[j] == pfs[j]);
                        let k0 = choose|k0: int| 0 <= k0 < prev.len() && pfs[j].key == prefix + "."@ + prev[k0].name;
                        assert(ds[k0] == prev[k0]);
                    } else {
                        assert(fs[j].key == prefix + "."@ + ds[ds.len() - 1].name);
                    }
                }
                assert(nk.subrange(0, prefix.len() as int) =~= prefix);
                assert(nk[prefix.len() as int] == '.');
                assert forall|i: int, j: int| 0 <= i < j < fs.len() implies (#[trigger] fs[i]).key != (#[trigger] fs[j]).key by {
                    if j < pfs.len() {
                        assert(fs[i] == pfs[i]);
                        assert(fs[j] == pfs[j]);
                    } else {
                        assert(fs[i] == pfs[i]);
                    }
                }
                assert forall|i: int| 0 <= i < fs.len() implies {
                    &&& (#[trigger] fs[i]).key.len() > prefix.len()
                    &&& fs[i].key.subrange(0, prefix.len() as int) == prefix
                    &&& fs[i].key[prefix.len() as int] == '.'
                } by {
                    if i < pfs.len() {
                        assert(fs[i] == pfs[i]);
                    }
                }
            },
            _ => {
                assert forall|j: int| 0 <= j < fs.len() implies exists|k: int|
                    0 <= k < ds.len() && (#[trigger] fs[j]).key == prefix + "."@ + ds[k].name by {
                    let k0 = choose|k0: int| 0 <= k0 < prev.len() && pfs[j].key == prefix + "."@ + prev[k0].name;
                    assert(ds[k0] == prev[k0]);
                }
            },
        }
    }
}

/// Changing the prefix changes only the keys' prefix: the same number of
/// fields, with the same labels, kinds and visibility, and each key's part
/// after the prefix kept.
pub proof fn law_prefix_change(ds: Seq<FieldDeclView>, p: Seq<char>, q: Seq<char>)
    ensures
        spec_fields(ds, q).len() == spec_fields(ds, p).len(),
        forall|j: int|
            0 <= j < spec_fields(ds, p).len() ==> {
                &&& (#[trigger] spec_fields(ds, q)[j]).label == spec_fields(ds, p)[j].label
                &&& spec_fields(ds, q)[j].kind == spec_fields(ds, p)[j].kind
                &&& spec_fields(ds, q)[j].visible_when == spec_fields(ds, p)[j].visible_when
                &&& spec_fields(ds, q)[j].key == q + spec_fields(ds, p)[j].key.skip(p.len() as int)
            },
    decreases ds.len(),
{
    if ds.len() > 0 {
        law_prefix_change(ds.drop_last(), p, q);
        let fp = spec_fields(ds, p);
        let fq = spec_fields(ds, q);
        let pp = spec_fields(ds.drop_last(), p);
        let pq = spec_fields(ds.drop_last(), q);
        match decl_check(ds.last()) {
            Ok(Some((a, k))) => {
                assert forall|j: int| 0 <= j < fp.len() implies {
                    &&& (#[trigger] fq[j]).label == fp[j].label
                    &&& fq[j].kind == fp[j].kind
                    &&& fq[j].visible_when == fp[j].visible_when
                    &&& fq[j].key == q + fp[j].key.skip(p.len() as int)
                } by {
                    if j < pp.len() {
                        assert(fq[j] == pq[j]);
                        assert(fp[j] == pp[j]);
                    } else {
                        assert((p + "."@ + ds.last().name).skip(p.len() as int) =~= "."@ + ds.last().name);
                        assert(q + "."@ + ds.last().name =~= q + ("."@ + ds.last().name));
                    }
                }
            },
            _ => {},
        }
    }
}

/// Whether a value is an `Option`, and if so whether it is set.
pub open spec fn set_state(v: FieldValueView) -> Option<bool> {
    match v {
        FieldValueView::OptionalStr(o) => Some(o is Some),
        FieldValueView::Optional(b) => Some(b),
        _ => None,
    }
}

/// Whether a declaration is a secret: its `#[setting]` parses and marks it
/// `secret`.
pub open spec fn is_secret_decl(d: FieldDeclView) -> bool {
    match spec_parse(d.attrs) {
        Ok(Some(a)) => a.kind == Some(SettingKind::Secret),
        _ => false,
    }
}

/// Two declarations are the same but for what a secret holds, as long as
/// whether it is set agrees.
pub open spec fn same_but_secret_value(d1: FieldDeclView, d2: FieldDeclView) -> bool {
    &&& d1.name == d2.name
    &&& d1.ty == d2.ty
    &&& d1.ty_path == d2.ty_path
    &&& d1.attrs == d2.attrs
    &&& d1.getter == d2.getter
    &&& (d1.value == d2.value || {
        &&& is_secret_decl(d1)
        &&& set_state(d1.value) is Some
        &&& set_state(d1.value) == set_state(d2.value)
    })
}

/// The fields of the first `k` declarations are the first fields of the whole
/// struct.
proof fn lemma_fields_prefix(ds: Seq<FieldDeclView>, prefix: Seq<char>, k: int)
    requires
        0 <= k <= ds.len(),
    ensures
        spec_fields(ds.take(k), prefix).len() <= spec_fields(ds, prefix).len(),
        forall|j: int|
            0 <= j < spec_fields(ds.take(k), prefix).len() ==> #[trigger] spec_fields(
                ds.take(k),
                prefix,
            )[j] == spec_fields(ds, prefix)[j],
    decreases ds.len(),
{
    if k == ds.len() {
        assert(ds.take(k) =~= ds);
    } else {
        assert(ds.drop_last().take(k) =~= ds.take(k));
        lemma_fields_prefix(ds.drop_last(), prefix, k);
    }
}

/// Each declaration with a `#[setting]` that checks is described by exactly
/// its own field: keyed `<prefix>.<name>`, with its label, kind and
/// visibility, standing after the fields of the declarations before it.
pub proof fn law_field_of_declaration(ds: Seq<FieldDeclView>, prefix: Seq<char>, i: int)
    requires
        0 <= i < ds.len(),
        decl_check(ds[i]) matches Ok(Some(_)),
    ensures
        match decl_check(ds[i]) {
            Ok(Some((a, k))) => {
                let j = spec_fields(ds.take(i), prefix).len();
                &&& j < spec_fields(ds, prefix).len()
                &&& spec_fields(ds, prefix)[j as int] == spec_field(a, k, ds[i], prefix)
                &&& spec_fields(ds, prefix)[j as int].key == prefix + "."@ + ds[i].name
            },
            _ => true,
        },
{
    assert(ds.take(i + 1).drop_last() =~= ds.take(i));
    assert(ds.take(i + 1).last() == ds[i]);
    lemma_fields_prefix(ds, prefix, i + 1);
    let j = spec_fields(ds.take(i), prefix).len();
    assert(spec_fields(ds.take(i + 1), prefix)[j as int] == spec_fields(ds, prefix)[j as int]);
}

/// A secret's value never reaches the descriptor: two structs that differ
/// only in what their secrets hold (each secret set in both or in neither)
/// are described by the same fields.
pub proof fn law_secret_values_do_not_show(ds1: Seq<FieldDeclView>, ds2: Seq<FieldDeclView>, prefix: Seq<char>)
    requires
        ds1.len() == ds2.len(),
        forall|i: int| 0 <= i < ds1.len() ==> same_but_secret_value(#[trigger] ds1[i], ds2[i]),
    ensures
        spec_fields(ds1, prefix) == spec_fields(ds2, prefix),
    decreases ds1.len(),
{
    if ds1.len() > 0 {
        assert forall|i: int| 0 <= i < ds1.drop_last().len() implies same_but_secret_value(
            #[trigger] ds1.drop_last()[i],
            ds2.drop_last()[i],
        ) by {
            assert(same_but_secret_value(ds1[i], ds2[i]));
        }
        law_secret_values_do_not_show(ds1.drop_last(), ds2.drop_last(), prefix);
        let d1 = ds1.last();
        let d2 = ds2.last();
        assert(same_but_secret_value(ds1[ds1.len() - 1], ds2[ds2.len() - 1]));
        if d1.value == d2.value {
            assert(d1 == d2);
        } else {
            assert(decl_check(d1) == decl_check(d2));
        }
    }
}

/// An enum's options are its variants, in order: each valued by the
/// variant's own string form and labelled by its `#[setting]`.
pub proof fn law_options_follow_variants(vs: Seq<VariantDeclView>)
    ensures
        spec_options(vs) matches Ok(os) ==> {
            &&& os.len() == vs.len()
            &&& forall|i: int|
                0 <= i < vs.len() ==> {
                    &&& (#[trigger] os[i]).value == vs[i].value
                    &&& spec_parse(vs[i].attrs) matches Ok(Some(a))
                    &&& os[i].label == a.label
                }
        },
    decreases vs.len(),
{
    if vs.len() > 0 {
        law_options_follow_variants(vs.drop_last());
        if let Ok(os) = spec_options(vs) {
            let prev = spec_options(vs.drop_last())->Ok_0;
            assert forall|i: int| 0 <= i < vs.len() implies {
                &&& (#[trigger] os[i]).value == vs[i].value
                &&& spec_parse(vs[i].attrs) matches Ok(Some(a))
                &&& os[i].label == a.label
            } by {
                if i < vs.len() - 1 {
                    assert(os[i] == prev[i]);
                    assert(vs.drop_last()[i] == vs[i]);
                }
            }
        }
    }
}

/// A secret's kind reads only whether the field is set: for a `secret`
/// field of `Option` type, two values set alike (both set or both unset)
/// give the same kind, `Secret { is_set }`, whatever they hold.
pub proof fn law_secret_kind_reads_only_setness(a: FieldAttrView, d1: FieldDeclView, d2: FieldDeclView)
    requires
        a.kind == Some(SettingKind::Secret),
        d1.ty == d2.ty,
        d1.ty_path == d2.ty_path,
        d1.getter == d2.getter,
        set_state(d1.value) is Some,
        set_state(d1.value) == set_state(d2.value),
    ensures
        spec_kind(a, d1) == spec_kind(a, d2),
        is_option(d1.ty) ==> spec_kind(a, d1) == Ok::<FieldKindView, SettingError>(
            FieldKindView::Secret { is_set: set_state(d1.value)->Some_0 },
        ),
{
}

/// The value an enum field shows is always one of the options it offers.
pub proof fn law_enum_value_is_an_option(a: FieldAttrView, d: FieldDeclView)
    ensures
        spec_kind(a, d) matches Ok(FieldKindView::Enum { value, options }) ==> exists|i: int|
            0 <= i < options.len() && (#[trigger] options[i]).value == value,
{
    if let Ok(FieldKindView::Enum { value, options }) = spec_kind(a, d) {
        if let FieldValueView::Choice { options: os, selected } = d.value {
            assert(options[selected as int].value == value);
        }
    }
}

/// The string a string or text kind shows, if the kind is one of those.
pub open spec fn shown_string(r: Result<FieldKindView, SettingError>) -> Option<Seq<char>> {
    match r {
        Ok(FieldKindView::String { value }) => Some(value),
        Ok(FieldKindView::Text { value }) => Some(value),
        _ => None,
    }
}

/// A string or text field without a getter shows the string it holds: for
/// an `Option<String>` field the held string `s` when set and the empty
/// string only when unset; for a `String` field the string itself. It is a
/// text field exactly when marked `text`.
pub proof fn law_string_fields_show_their_value(a: FieldAttrView, d: FieldDeclView, s: Seq<char>)
    requires
        a.get is None,
        a.kind is None || a.kind == Some(SettingKind::Text),
        !is_bool(d.ty_path),
    ensures
        is_option(d.ty) && d.value == FieldValueView::OptionalStr(Some(s)) ==> shown_string(
            spec_kind(a, d),
        ) == Some(s),
        is_option(d.ty) && d.value == FieldValueView::OptionalStr(None) ==> shown_string(
            spec_kind(a, d),
        ) == Some(Seq::<char>::empty()),
        !is_option(d.ty) && d.value == FieldValueView::Str(s) ==> shown_string(spec_kind(a, d))
            == Some(s),
        shown_string(spec_kind(a, d)) is Some ==> (spec_kind(a, d) matches Ok(
            FieldKindView::Text { .. },
        ) <==> a.kind == Some(SettingKind::Text)),
{
}

/// Inserting a well-formed attribute that is not `#[setting]` anywhere among
/// an item's attributes leaves its parsed `#[setting]` unchanged: other
/// attributes (doc comments, `#[default]`, `#[serde(...)]`) are skipped
/// whatever their form.
pub proof fn law_other_attributes_are_skipped(attrs: Seq<Seq<char>>, i: int, x: Seq<char>)
    requires
        0 <= i <= attrs.len(),
        syn_attribute(x) is Some,
        syn_attribute(x)->Some_0.path != "setting"@,
    ensures
        find_setting(attrs.insert(i, x)) == find_setting(attrs),
        spec_parse(attrs.insert(i, x)) == spec_parse(attrs),
    decreases attrs.len(),
{
    if i == 0 {
        assert(attrs.insert(0, x).drop_first() =~= attrs);
    } else {
        assert(attrs.insert(i, x)[0] == attrs[0]);
        assert(attrs.insert(i, x).drop_first() =~= attrs.drop_first().insert(i - 1, x));
        law_other_attributes_are_skipped(attrs.drop_first(), i - 1, x);
    }
}

/// So an item's described field does not change either.
pub proof fn law_other_attributes_leave_the_field(d: FieldDeclView, i: int, x: Seq<char>)
    requires
        0 <= i <= d.attrs.len(),
        syn_attribute(x) is Some,
        syn_attribute(x)->Some_0.path != "setting"@,
    ensures
        decl_check(FieldDeclView { attrs: d.attrs.insert(i, x), ..d }) == decl_check(d),
{
    law_other_attributes_are_skipped(d.attrs, i, x);
}

/// So an enum's options do not change either.
pub proof fn law_other_attributes_leave_the_options(vs: Seq<VariantDeclView>, k: int, i: int, x: Seq<char>)
    requires
        0 <= k < vs.len(),
        0 <= i <= vs[k].attrs.len(),
        syn_attribute(x) is Some,
        syn_attribute(x)->Some_0.path != "setting"@,
    ensures
        spec_options(vs.update(k, VariantDeclView { attrs: vs[k].attrs.insert(i, x), ..vs[k] })) == spec_options(vs),
    decreases vs.len(),
{
    law_other_attributes_are_skipped(vs[k].attrs, i, x);
    let ws = vs.update(k, VariantDeclView { attrs: vs[k].attrs.insert(i, x), ..vs[k] });
    if k < vs.len() - 1 {
        assert(ws.drop_last() =~= vs.drop_last().update(k, VariantDeclView { attrs: vs[k].attrs.insert(i, x), ..vs[k] }));
        law_other_attributes_leave_the_options(vs.drop_last(), k, i, x);
        assert(ws.last() == vs.last());
    } else {
        assert(ws.drop_last() =~= vs.drop_last());
    }
}

/// The kind an item of `#[setting(...)]` sets, if it is one of the kind items.
pub open spec fn kind_item(m: SettingMetaView) -> Option<SettingKind> {
    match m {
        SettingMetaView::Secret => Some(SettingKind::Secret),
        SettingMetaView::Enumerated => Some(SettingKind::Enumerated),
        SettingMetaView::Text => Some(SettingKind::Text),
        _ => None,
    }
}

/// The label a `label` item gives.
pub open spec fn label_item(m: SettingMetaView) -> Option<Seq<char>> {
    match m {
        SettingMetaView::Label(l) => Some(l),
        _ => None,
    }
}

/// The getter a `get` item names.
pub open spec fn get_item(m: SettingMetaView) -> Option<Seq<char>> {
    match m {
        SettingMetaView::Get(g) => Some(g),
        _ => None,
    }
}

/// The condition a `visible_when` item gives.
pub open spec fn when_item(m: SettingMetaView) -> Option<(Seq<char>, Seq<char>)> {
    match m {
        SettingMetaView::VisibleWhen(w, e) => Some((w, e)),
        _ => None,
    }
}

pub open spec fn no_kind_after(ms: Seq<SettingMetaView>, i: int) -> bool {
    forall|j: int| i < j < ms.len() ==> kind_item(#[trigger] ms[j]) is None
}

pub open spec fn no_label_after(ms: Seq<SettingMetaView>, i: int) -> bool {
    forall|j: int| i < j < ms.len() ==> label_item(#[trigger] ms[j]) is None
}

pub open spec fn no_get_after(ms: Seq<SettingMetaView>, i: int) -> bool {
    forall|j: int| i < j < ms.len() ==> get_item(#[trigger] ms[j]) is None
}

pub open spec fn no_when_after(ms: Seq<SettingMetaView>, i: int) -> bool {
    forall|j: int| i < j < ms.len() ==> when_item(#[trigger] ms[j]) is None
}

/// The kind of a parsed `#[setting(...)]` is set by its last kind item
/// (`secret`, `enumerated`, `text`), whatever items of other names stand
/// before or after it; with no kind item there is no kind.
pub proof fn law_last_kind_item_wins(ms: Seq<SettingMetaView>)
    ensures
        forall|i: int|
            0 <= i < ms.len() && kind_item(ms[i]) is Some && #[trigger] no_kind_after(ms, i) ==> parse_metas(ms).kind
                == kind_item(ms[i]),
        no_kind_after(ms, -1) ==> parse_metas(ms).kind is None,
    decreases ms.len(),
{
    if ms.len() > 0 {
        let p = ms.drop_last();
        let n = ms.len() - 1;
        law_last_kind_item_wins(p);
        assert forall|i: int|
            0 <= i < ms.len() && kind_item(ms[i]) is Some && #[trigger] no_kind_after(ms, i) implies parse_metas(ms).kind
            == kind_item(ms[i]) by {
            if i < n {
                assert(kind_item(ms[n]) is None);
                assert forall|j: int| i < j < p.len() implies kind_item(#[trigger] p[j]) is None by {
                    assert(p[j] == ms[j]);
                }
                assert(no_kind_after(p, i));
                assert(p[i] == ms[i]);
            }
        }
        if no_kind_after(ms, -1) {
            assert(kind_item(ms[n]) is None);
            assert forall|j: int| -1 < j < p.len() implies kind_item(#[trigger] p[j]) is None by {
                assert(p[j] == ms[j]);
            }
            assert(no_kind_after(p, -1));
        }
    }
}

/// The label of a parsed `#[setting(...)]` is that of its last `label` item,
/// whatever items of other names stand before or after it.
pub proof fn law_last_label_item_wins(ms: Seq<SettingMetaView>)
    ensures
        forall|i: int|
            0 <= i < ms.len() && label_item(ms[i]) is Some && #[trigger] no_label_after(ms, i) ==> parse_metas(ms).label
                == label_item(ms[i]),
        no_label_after(ms, -1) ==> parse_metas(ms).label is None,
    decreases ms.len(),
{
    if ms.len() > 0 {
        let p = ms.drop_last();
        let n = ms.len() - 1;
        law_last_label_item_wins(p);
        assert forall|i: int|
            0 <= i < ms.len() && label_item(ms[i]) is Some && #[trigger] no_label_after(ms, i) implies parse_metas(ms).label
            == label_item(ms[i]) by {
            if i < n {
                assert(label_item(ms[n]) is None);
                assert forall|j: int| i < j < p.len() implies label_item(#[trigger] p[j]) is None by {
                    assert(p[j] == ms[j]);
                }
                assert(no_label_after(p, i));
                assert(p[i] == ms[i]);
            }
        }
        if no_label_after(ms, -1) {
            assert(label_item(ms[n]) is None);
            assert forall|j: int| -1 < j < p.len() implies label_item(#[trigger] p[j]) is None by {
                assert(p[j] == ms[j]);
            }
            assert(no_label_after(p, -1));
        }
    }
}

/// The getter of a parsed `#[setting(...)]` is that of its last `get` item,
/// whatever items of other names stand before or after it.
pub proof fn law_last_get_item_wins(ms: Seq<SettingMetaView>)
    ensures
        forall|i: int|
            0 <= i < ms.len() && get_item(ms[i]) is Some && #[trigger] no_get_after(ms, i) ==> parse_metas(ms).get
                == get_item(ms[i]),
        no_get_after(ms, -1) ==> parse_metas(ms).get is None,
    decreases ms.len(),
{
    if ms.len() > 0 {
        let p = ms.drop_last();
        let n = ms.len() - 1;
        law_last_get_item_wins(p);
        assert forall|i: int|
            0 <= i < ms.len() && get_item(ms[i]) is Some && #[trigger] no_get_after(ms, i) implies parse_metas(ms).get
            == get_item(ms[i]) by {
            if i < n {
                assert(get_item(ms[n]) is None);
                assert forall|j: int| i < j < p.len() implies get_item(#[trigger] p[j]) is None by {
                    assert(p[j] == ms[j]);
                }
                assert(no_get_after(p, i));
                assert(p[i] == ms[i]);
            }
        }
        if no_get_after(ms, -1) {
            assert(get_item(ms[n]) is None);
            assert forall|j: int| -1 < j < p.len() implies get_item(#[trigger] p[j]) is None by {
                assert(p[j] == ms[j]);
            }
            assert(no_get_after(p, -1));
        }
    }
}

/// The visibility condition of a parsed `#[setting(...)]` is that of its
/// last `visible_when` item, whatever items of other names stand before or
/// after it.
pub proof fn law_last_when_item_wins(ms: Seq<SettingMetaView>)
    ensures
        forall|i: int|
            0 <= i < ms.len() && when_item(ms[i]) is Some && #[trigger] no_when_after(ms, i) ==> parse_metas(ms).visible_when
                == when_item(ms[i]),
        no_when_after(ms, -1) ==> parse_metas(ms).visible_when is None,
    decreases ms.len(),
{
    if ms.len() > 0 {
        let p = ms.drop_last();
        let n = ms.len() - 1;
        law_last_when_item_wins(p);
        assert forall|i: int|
            0 <= i < ms.len() && when_item(ms[i]) is Some && #[trigger] no_when_after(ms, i) implies parse_metas(ms).visible_when
            == when_item(ms[i]) by {
            if i < n {
                assert(when_item(ms[n]) is None);
                assert forall|j: int| i < j < p.len() implies when_item(#[trigger] p[j]) is None by {
                    assert(p[j] == ms[j]);
                }
                assert(no_when_after(p, i));
                assert(p[i] == ms[i]);
            }
        }
        if no_when_after(ms, -1) {
            assert(when_item(ms[n]) is None);
            assert forall|j: int| -1 < j < p.len() implies when_item(#[trigger] p[j]) is None by {
                assert(p[j] == ms[j]);
            }
            assert(no_when_after(p, -1));
        }
    }
}

} // verus!
