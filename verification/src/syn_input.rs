//! Reading a deriving item's source text with `syn`: the item's shape, its
//! fields or variants, and the text of their attributes, as plain values.

use vstd::prelude::*;

use quote::ToTokens;
use syn::parse::Parser;

verus! {

/// A named field: its name, the segment names of its type's path (empty when
/// the type is not a path), that path printed as text (with any leading `::`
/// and generic arguments; `None` when the type is not a path), and the text of
/// each of its attributes.
pub struct RawField {
    pub name: String,
    pub ty: Vec<String>,
    pub ty_path: Option<String>,
    pub attrs: Vec<String>,
}

/// An enum variant: its name and the text of each of its attributes.
pub struct RawVariant {
    pub name: String,
    pub attrs: Vec<String>,
}

/// The fields of a struct, each printed as text.
pub enum RawFields {
    Named(Vec<String>),
    Unnamed,
    Unit,
}

/// A deriving item: for a struct its fields and for an enum its variants,
/// each printed as text.
pub enum RawItem {
    Struct(RawFields),
    Enum(Vec<String>),
    Union,
}

/// An attribute: its path printed as text (with any leading `::`), and the
/// text of its arguments when they are written in parentheses.
pub struct RawAttribute {
    pub path: String,
    pub args: Option<String>,
}

pub struct RawFieldView {
    pub name: Seq<char>,
    pub ty: Seq<Seq<char>>,
    pub ty_path: Option<Seq<char>>,
    pub attrs: Seq<Seq<char>>,
}

pub struct RawVariantView {
    pub name: Seq<char>,
    pub attrs: Seq<Seq<char>>,
}

pub enum RawItemView {
    NamedStruct(Seq<Seq<char>>),
    UnnamedStruct,
    UnitStruct,
    Enum(Seq<Seq<char>>),
    Union,
}

pub struct RawAttributeView {
    pub path: Seq<char>,
    pub args: Option<Seq<char>>,
}

/// The views of a list of fields.
pub open spec fn raw_fields_view(v: Seq<RawField>) -> Seq<RawFieldView> {
    v.map_values(|f: RawField| f@)
}

/// The views of a list of variants.
pub open spec fn raw_variants_view(v: Seq<RawVariant>) -> Seq<RawVariantView> {
    v.map_values(|r: RawVariant| r@)
}

/// The views of a list of strings.
pub open spec fn strings_view(v: Seq<String>) -> Seq<Seq<char>> {
    v.map_values(|s: String| s@)
}

impl View for RawField {
    type V = RawFieldView;

    open spec fn view(&self) -> RawFieldView {
        RawFieldView {
            name: self.name@,
            ty: strings_view(self.ty@),
            ty_path: match self.ty_path {
                Some(t) => Some(t@),
                None => None,
            },
            attrs: strings_view(self.attrs@),
        }
    }
}

impl View for RawVariant {
    type V = RawVariantView;

    open spec fn view(&self) -> RawVariantView {
        RawVariantView { name: self.name@, attrs: strings_view(self.attrs@) }
    }
}

impl View for RawItem {
    type V = RawItemView;

    open spec fn view(&self) -> RawItemView {
        match self {
            RawItem::Struct(RawFields::Named(fs)) => RawItemView::NamedStruct(strings_view(fs@)),
            RawItem::Struct(RawFields::Unnamed) => RawItemView::UnnamedStruct,
            RawItem::Struct(RawFields::Unit) => RawItemView::UnitStruct,
            RawItem::Enum(vs) => RawItemView::Enum(strings_view(vs@)),
            RawItem::Union => RawItemView::Union,
        }
    }
}

impl View for RawAttribute {
    type V = RawAttributeView;

    open spec fn view(&self) -> RawAttributeView {
        RawAttributeView {
            path: self.path@,
            args: match self.args {
                Some(a) => Some(a@),
                None => None,
            },
        }
    }
}

/// What `syn` reads from the text of a named field
/// (`syn::Field::parse_named`), or `None` when that text is not one.
pub uninterp spec fn syn_field(text: Seq<char>) -> Option<RawFieldView>;

/// What `syn` reads from the text of an enum variant
/// (`syn::parse_str::<syn::Variant>`), or `None` when that text is not one.
pub uninterp spec fn syn_variant(text: Seq<char>) -> Option<RawVariantView>;

/// What `syn` reads from the source text of a deriving item
/// (`syn::parse_str::<syn::DeriveInput>`), or `None` when that text is not
/// one.
pub uninterp spec fn syn_item(src: Seq<char>) -> Option<RawItemView>;

/// What `syn` reads from the text of one outer attribute
/// (`syn::Attribute::parse_outer`), or `None` when that text is not one.
pub uninterp spec fn syn_attribute(text: Seq<char>) -> Option<RawAttributeView>;

/// The value of a string literal token as `syn::LitStr::value` gives it, or
/// `None` when the text is not a string literal.
pub uninterp spec fn syn_lit_str(text: Seq<char>) -> Option<Seq<char>>;

/// Parses the source text of a deriving item with
/// `syn::parse_str::<syn::DeriveInput>` and reports its shape: for a struct
/// with named fields, and for an enum, each field or variant printed back as
/// text. Claimed: the result is `syn_item` of the text, a function of the
/// text alone.
#[verifier::external_body]
pub fn read_item(src: &str) -> (r: Option<RawItem>)
    ensures
        match r {
            Some(item) => syn_item(src@) == Some(item@),
            None => syn_item(src@) is None,
        },
{
    Some(match syn::parse_str::<syn::DeriveInput>(src).ok()?.data {
        syn::Data::Struct(s) => RawItem::Struct(match s.fields {
            syn::Fields::Named(n) => RawFields::Named(n.named.iter().map(|f| f.to_token_stream().to_string()).collect()),
            syn::Fields::Unnamed(_) => RawFields::Unnamed,
            syn::Fields::Unit => RawFields::Unit,
        }),
        syn::Data::Enum(e) => RawItem::Enum(e.variants.iter().map(|v| v.to_token_stream().to_string()).collect()),
        syn::Data::Union(_) => RawItem::Union,
    })
}

/// Parses the text of a named field with `syn::Field::parse_named` and
/// reports its name, the segment names of its type's path (none when the
/// type is not a path), that path printed as text, and its attributes printed
/// as text. Claimed: the result is `syn_field` of the text.
#[verifier::external_body]
pub fn read_field(text: &str) -> (r: Option<RawField>)
    ensures
        match r {
            Some(f) => syn_field(text@) == Some(f@),
            None => syn_field(text@) is None,
        },
{
    let f = syn::Field::parse_named.parse_str(text).ok()?;
    Some(RawField {
        name: f.ident.as_ref()?.to_string(),
        ty: match &f.ty {
            syn::Type::Path(p) => p.path.segments.iter().map(|s| s.ident.to_string()).collect(),
            _ => Vec::new(),
        },
        ty_path: match &f.ty {
            syn::Type::Path(p) => Some(p.path.to_token_stream().to_string()),
            _ => None,
        },
        attrs: f.attrs.iter().map(|a| a.to_token_stream().to_string()).collect(),
    })
}

/// Parses the text of an enum variant with `syn::parse_str::<syn::Variant>`
/// and reports its name and its attributes printed as text. Claimed: the
/// result is `syn_variant` of the text.
#[verifier::external_body]
pub fn read_variant(text: &str) -> (r: Option<RawVariant>)
    ensures
        match r {
            Some(v) => syn_variant(text@) == Some(v@),
            None => syn_variant(text@) is None,
        },
{
    let v = syn::parse_str::<syn::Variant>(text).ok()?;
    Some(RawVariant {
        name: v.ident.to_string(),
        attrs: v.attrs.iter().map(|a| a.to_token_stream().to_string()).collect(),
    })
}

/// Parses the text of an outer attribute with `syn::Attribute::parse_outer`
/// and reports the first one: its path printed as text (so `setting` exactly
/// when the path is that single plain identifier) and, for the parenthesized
/// form `#[path(...)]`, the text of the tokens inside the parentheses.
/// Claimed: the result is `syn_attribute` of the text.
#[verifier::external_body]
pub fn read_attribute(text: &str) -> (r: Option<RawAttribute>)
    ensures
        match r {
            Some(a) => syn_attribute(text@) == Some(a@),
            None => syn_attribute(text@) is None,
        },
{
    let a = syn::Attribute::parse_outer.parse_str(text).ok()?.into_iter().next()?;
    Some(RawAttribute {
        path: a.path().to_token_stream().to_string(),
        args: match a.meta {
            syn::Meta::List(l) => Some(l.tokens.to_string()),
            syn::Meta::Path(_) => None,
            syn::Meta::NameValue(_) => None,
        },
    })
}

/// Parses a string literal token with `syn::parse_str::<syn::LitStr>` and
/// gives its value (escapes resolved). Claimed: the result is `syn_lit_str`
/// of the text.
#[verifier::external_body]
pub fn lit_str_value(text: &str) -> (r: Option<String>)
    ensures
        match r {
            Some(v) => syn_lit_str(text@) == Some(v@),
            None => syn_lit_str(text@) is None,
        },
{
    syn::parse_str::<syn::LitStr>(text).ok().map(|l| l.value())
}

} // verus!
