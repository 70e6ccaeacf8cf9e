//! The grammar of the arguments of `#[setting(...)]`: a comma-separated list
//! of items, each a path followed by what that item takes:
//!
//! - `label = "…"`, `get = "…"`: a string literal;
//! - `secret`, `enumerated`, `text`: nothing;
//! - `visible_when(field = "…", equals = "…")`: a parenthesized list in which
//!   `field` and `equals` take a string literal and any other plain path is
//!   ignored.
//!
//! Any other item is refused at once. The text is read as `syn` prints a
//! token stream; string literals (plain or raw, with or without a suffix)
//! are resolved by `syn`.

use vstd::prelude::*;

use crate::settings_derive::{opt_view, SettingError};
use crate::syn_input::{lit_str_value, syn_lit_str};

verus! {

/// A token of the argument text.
pub enum Tok {
    Ident(String),
    /// A string literal, as written (quotes and escapes included).
    Str(String),
    Open,
    Close,
    PathSep,
    Eq,
    Comma,
    /// Any other punctuation or literal.
    Other,
}

pub enum TokView {
    Ident(Seq<char>),
    Str(Seq<char>),
    Open,
    Close,
    PathSep,
    Eq,
    Comma,
    Other,
}

impl View for Tok {
    type V = TokView;

    open spec fn view(&self) -> TokView {
        match self {
            Tok::Ident(s) => TokView::Ident(s@),
            Tok::Str(s) => TokView::Str(s@),
            Tok::Open => TokView::Open,
            Tok::Close => TokView::Close,
            Tok::PathSep => TokView::PathSep,
            Tok::Eq => TokView::Eq,
            Tok::Comma => TokView::Comma,
            Tok::Other => TokView::Other,
        }
    }
}

pub open spec fn toks_view(v: Seq<Tok>) -> Seq<TokView> {
    v.map_values(|t: Tok| t@)
}

/// One item of `#[setting(...)]`.
pub enum SettingMeta {
    Label(String),
    Get(String),
    Secret,
    Enumerated,
    Text,
    /// `visible_when(field = "…", equals = "…")`
    VisibleWhen(String, String),
}

pub enum SettingMetaView {
    Label(Seq<char>),
    Get(Seq<char>),
    Secret,
    Enumerated,
    Text,
    VisibleWhen(Seq<char>, Seq<char>),
}

impl View for SettingMeta {
    type V = SettingMetaView;

    open spec fn view(&self) -> SettingMetaView {
        match self {
            SettingMeta::Label(s) => SettingMetaView::Label(s@),
            SettingMeta::Get(s) => SettingMetaView::Get(s@),
            SettingMeta::Secret => SettingMetaView::Secret,
            SettingMeta::Enumerated => SettingMetaView::Enumerated,
            SettingMeta::Text => SettingMetaView::Text,
            SettingMeta::VisibleWhen(w, e) => SettingMetaView::VisibleWhen(w@, e@),
        }
    }
}

pub open spec fn metas_view(v: Seq<SettingMeta>) -> Seq<SettingMetaView> {
    v.map_values(|m: SettingMeta| m@)
}

pub open spec fn is_space(c: char) -> bool {
    c == ' ' || c == '\n' || c == '\t' || c == '\r'
}

pub open spec fn is_digit(c: char) -> bool {
    48 <= (c as u32) <= 57
}

/// Letters, digits, `_`, and any character beyond ASCII.
pub open spec fn is_ident_char(c: char) -> bool {
    let u = c as u32;
    (97 <= u <= 122) || (65 <= u <= 90) || is_digit(c) || u == 95 || u > 127
}

/// The end of a string literal whose body starts at `j`: just after the
/// closing quote; a backslash escapes the character after it.
pub open spec fn str_end(s: Seq<char>, j: int) -> Option<int>
    decreases s.len() - j,
{
    if j < 0 || j >= s.len() {
        None
    } else if s[j] == '"' {
        Some(j + 1)
    } else if s[j] == '\\' {
        if j + 1 >= s.len() {
            None
        } else {
            str_end(s, j + 2)
        }
    } else {
        str_end(s, j + 1)
    }
}

/// The end of the run of identifier characters starting at `j`.
pub open spec fn ident_end(s: Seq<char>, j: int) -> int
    decreases s.len() - j,
{
    if 0 <= j < s.len() && is_ident_char(s[j]) {
        ident_end(s, j + 1)
    } else {
        j
    }
}

/// The number of `#` characters in a row from `j`.
pub open spec fn hashes(s: Seq<char>, j: int) -> nat
    decreases s.len() - j,
{
    if 0 <= j < s.len() && s[j] == '#' {
        1 + hashes(s, j + 1)
    } else {
        0
    }
}

/// A raw string literal starts at `i`: `r`, some `#`, then a quote.
pub open spec fn raw_str_start(s: Seq<char>, i: int) -> bool {
    let q = i + 1 + hashes(s, i + 1);
    0 <= q < s.len() && s[q] == '"'
}

/// A raw identifier starts at `i`: `r#` and an identifier.
pub open spec fn raw_ident_start(s: Seq<char>, i: int) -> bool {
    0 <= i && i + 2 < s.len() && s[i + 1] == '#' && is_ident_char(s[i + 2]) && !is_digit(s[i + 2])
}

/// The end of a raw string literal with `h` hashes whose body starts at `j`:
/// just after the first quote followed by `h` hashes.
pub open spec fn raw_end(s: Seq<char>, j: int, h: nat) -> Option<int>
    decreases s.len() - j,
{
    if j < 0 || j >= s.len() {
        None
    } else if s[j] == '"' && hashes(s, j + 1) >= h {
        Some(j + 1 + h)
    } else {
        raw_end(s, j + 1, h)
    }
}

pub open spec fn prepend(t: TokView, r: Option<Seq<TokView>>) -> Option<Seq<TokView>> {
    match r {
        Some(rest) => Some(seq![t] + rest),
        None => None,
    }
}

/// The tokens of the text from position `i`; `None` when a string literal is
/// not closed.
pub open spec fn lex_from(s: Seq<char>, i: int) -> Option<Seq<TokView>>
    decreases s.len() - i,
{
    if i < 0 || i >= s.len() {
        Some(Seq::empty())
    } else {
        let c = s[i];
        if is_space(c) {
            lex_from(s, i + 1)
        } else if c == '"' {
            match str_end(s, i + 1) {
                Some(j) => {
                    let k = ident_end(s, j);
                    if k <= i || k > s.len() {
                        None
                    } else {
                        prepend(TokView::Str(s.subrange(i, k)), lex_from(s, k))
                    }
                },
                None => None,
            }
        } else if c == 'r' && raw_str_start(s, i) {
            let h = hashes(s, i + 1);
            match raw_end(s, i + 2 + h, h) {
                Some(j) => {
                    let k = ident_end(s, j);
                    if k <= i || k > s.len() {
                        None
                    } else {
                        prepend(TokView::Str(s.subrange(i, k)), lex_from(s, k))
                    }
                },
                None => None,
            }
        } else if c == 'r' && raw_ident_start(s, i) {
            let k = ident_end(s, i + 2);
            if k <= i || k > s.len() {
                None
            } else {
                prepend(TokView::Ident(s.subrange(i, k)), lex_from(s, k))
            }
        } else if c == '(' {
            prepend(TokView::Open, lex_from(s, i + 1))
        } else if c == ')' {
            prepend(TokView::Close, lex_from(s, i + 1))
        } else if c == ',' {
            prepend(TokView::Comma, lex_from(s, i + 1))
        } else if c == '=' {
            prepend(TokView::Eq, lex_from(s, i + 1))
        } else if c == ':' && i + 1 < s.len() && s[i + 1] == ':' {
            prepend(TokView::PathSep, lex_from(s, i + 2))
        } else if is_ident_char(c) {
            let j = ident_end(s, i + 1);
            if j <= i || j > s.len() {
                None
            } else if is_digit(c) {
                prepend(TokView::Other, lex_from(s, j))
            } else {
                prepend(TokView::Ident(s.subrange(i, j)), lex_from(s, j))
            }
        } else {
            prepend(TokView::Other, lex_from(s, i + 1))
        }
    }
}

/// The rest of a path after its first segment: `:: ident` repeated. Gives
/// whether the path stayed a single segment, and where it ends.
pub open spec fn path_tail(t: Seq<TokView>, j: int, end: int, single: bool) -> Option<(bool, int)>
    decreases end - j,
{
    if 0 <= j < end && end <= t.len() && t[j] is PathSep {
        if j + 1 < end && t[j + 1] is Ident {
            path_tail(t, j + 2, end, false)
        } else {
            None
        }
    } else {
        Some((single, j))
    }
}

/// A path starting at `i` (before `end`): the identifier it is when it is a
/// single plain identifier, and where it ends; `None` when there is no path.
pub open spec fn parse_path(t: Seq<TokView>, i: int, end: int) -> Option<(Option<Seq<char>>, int)> {
    let rooted = 0 <= i < end && end <= t.len() && t[i] is PathSep;
    let k = if rooted { i + 1 } else { i };
    if 0 <= k < end && end <= t.len() {
        match t[k] {
            TokView::Ident(name) => match path_tail(t, k + 1, end, true) {
                Some((single, j)) => Some((if single && !rooted { Some(name) } else { None }, j)),
                None => None,
            },
            _ => None,
        }
    } else {
        None
    }
}

/// `= "…"` at `j`: the literal's value and where it ends.
pub open spec fn lit_value(t: Seq<TokView>, j: int, end: int) -> Option<(Seq<char>, int)> {
    if 0 <= j && j + 1 < end && end <= t.len() && t[j] is Eq {
        match t[j + 1] {
            TokView::Str(text) => match syn_lit_str(text) {
                Some(v) => Some((v, j + 2)),
                None => None,
            },
            _ => None,
        }
    } else {
        None
    }
}

/// The closing parenthesis matching an open one just before `j`.
pub open spec fn close_of(t: Seq<TokView>, j: int, depth: nat) -> Option<int>
    decreases t.len() - j,
{
    if j < 0 || j >= t.len() {
        None
    } else {
        match t[j] {
            TokView::Close => if depth == 0 {
                Some(j)
            } else {
                close_of(t, j + 1, (depth - 1) as nat)
            },
            TokView::Open => close_of(t, j + 1, depth + 1),
            _ => close_of(t, j + 1, depth),
        }
    }
}

/// The items of `visible_when(...)` from `i` to `end`, with the `field` and
/// `equals` seen so far; a later one replaces an earlier one.
pub open spec fn when_from(
    t: Seq<TokView>,
    i: int,
    end: int,
    when: Option<Seq<char>>,
    equals: Option<Seq<char>>,
) -> Result<(Option<Seq<char>>, Option<Seq<char>>), SettingError>
    decreases end - i,
{
    match parse_path(t, i, end) {
        None => Err(SettingError::Malformed),
        Some((name, j)) => {
            let step: Option<(Option<Seq<char>>, Option<Seq<char>>, int)> = if name == Some(
                "field"@,
            ) {
                match lit_value(t, j, end) {
                    Some((v, k)) => Some((Some(v), equals, k)),
                    None => None,
                }
            } else if name == Some("equals"@) {
                match lit_value(t, j, end) {
                    Some((v, k)) => Some((when, Some(v), k)),
                    None => None,
                }
            } else {
                Some((when, equals, j))
            };
            match step {
                None => Err(SettingError::Malformed),
                Some((w, e, k)) => if k >= end {
                    Ok((w, e))
                } else if t[k] is Comma {
                    if k + 1 >= end {
                        Ok((w, e))
                    } else if k < i {
                        Err(SettingError::Malformed)
                    } else {
                        when_from(t, k + 1, end, w, e)
                    }
                } else {
                    Err(SettingError::Malformed)
                },
            }
        },
    }
}

/// One item at `i`: what it says and where it ends.
pub open spec fn spec_item(t: Seq<TokView>, i: int) -> Result<(SettingMetaView, int), SettingError> {
    let end = t.len() as int;
    match parse_path(t, i, end) {
        None => Err(SettingError::Malformed),
        Some((name, j)) => if name == Some("label"@) {
            match lit_value(t, j, end) {
                Some((v, k)) => Ok((SettingMetaView::Label(v), k)),
                None => Err(SettingError::Malformed),
            }
        } else if name == Some("get"@) {
            match lit_value(t, j, end) {
                Some((v, k)) => Ok((SettingMetaView::Get(v), k)),
                None => Err(SettingError::Malformed),
            }
        } else if name == Some("secret"@) {
            Ok((SettingMetaView::Secret, j))
        } else if name == Some("enumerated"@) {
            Ok((SettingMetaView::Enumerated, j))
        } else if name == Some("text"@) {
            Ok((SettingMetaView::Text, j))
        } else if name == Some("visible_when"@) {
            if 0 <= j < end && t[j] is Open {
                match close_of(t, j + 1, 0) {
                    None => Err(SettingError::Malformed),
                    Some(c) => match when_from(t, j + 1, c, None, None) {
                        Err(e) => Err(e),
                        Ok((Some(w), Some(e))) => Ok((SettingMetaView::VisibleWhen(w, e), c + 1)),
                        Ok(_) => Err(SettingError::IncompleteVisibleWhen),
                    },
                }
            } else {
                Err(SettingError::Malformed)
            }
        } else {
            Err(SettingError::UnknownAttribute)
        },
    }
}

/// The items from `i` to the end, separated by commas (a trailing comma is
/// allowed); the first problem stops.
pub open spec fn items_from(t: Seq<TokView>, i: int) -> Result<Seq<SettingMetaView>, SettingError>
    decreases t.len() - i,
{
    match spec_item(t, i) {
        Err(e) => Err(e),
        Ok((m, j)) => if j >= t.len() {
            Ok(seq![m])
        } else if t[j] is Comma {
            if j + 1 >= t.len() {
                Ok(seq![m])
            } else if j < i {
                Err(SettingError::Malformed)
            } else {
                match items_from(t, j + 1) {
                    Ok(ms) => Ok(seq![m] + ms),
                    Err(e) => Err(e),
                }
            }
        } else {
            Err(SettingError::Malformed)
        },
    }
}

/// The items of the arguments of `#[setting(...)]`: none for empty
/// arguments.
pub open spec fn spec_setting_items(args: Seq<char>) -> Result<Seq<SettingMetaView>, SettingError> {
    match lex_from(args, 0) {
        None => Err(SettingError::Malformed),
        Some(t) => if t.len() == 0 {
            Ok(Seq::empty())
        } else {
            items_from(t, 0)
        },
    }
}

pub open spec fn prepend_all(v: Seq<TokView>, r: Option<Seq<TokView>>) -> Option<Seq<TokView>> {
    match r {
        Some(rest) => Some(v + rest),
        None => None,
    }
}

pub open spec fn prepend_ok(
    v: Seq<SettingMetaView>,
    r: Result<Seq<SettingMetaView>, SettingError>,
) -> Result<Seq<SettingMetaView>, SettingError> {
    match r {
        Ok(rest) => Ok(v + rest),
        Err(e) => Err(e),
    }
}

fn space_char(c: char) -> (b: bool)
    ensures
        b == is_space(c),
{
    c == ' ' || c == '\n' || c == '\t' || c == '\r'
}

fn digit_char(c: char) -> (b: bool)
    ensures
        b == is_digit(c),
{
    let u = c as u32;
    48 <= u && u <= 57
}

fn ident_char(c: char) -> (b: bool)
    ensures
        b == is_ident_char(c),
{
    let u = c as u32;
    (97 <= u && u <= 122) || (65 <= u && u <= 90) || digit_char(c) || u == 95 || u > 127
}

/// Where a string literal whose body starts at `j0` ends.
fn str_close(args: &str, n: usize, j0: usize) -> (r: Option<usize>)
    requires
        n == args@.len(),
    ensures
        match r {
            Some(k) => str_end(args@, j0 as int) == Some(k as int) && j0 < k <= n,
            None => str_end(args@, j0 as int) is None,
        },
{
    let mut j = j0;
    while j < n
        invariant
            n == args@.len(),
            j0 <= j,
            str_end(args@, j0 as int) == str_end(args@, j as int),
        decreases n - j,
    {
        let c = args.get_char(j);
        if c == '"' {
            return Some(j + 1);
        }
        if c == '\\' {
            if j + 1 >= n {
                return None;
            }
            j = j + 2;
        } else {
            j = j + 1;
        }
    }
    None
}

/// The number of `#` characters in a row from `j0`.
fn hash_count(args: &str, n: usize, j0: usize) -> (h: usize)
    requires
        n == args@.len(),
        j0 <= n,
    ensures
        h == hashes(args@, j0 as int),
        j0 + h <= n,
{
    let mut j = j0;
    while j < n && args.get_char(j) == '#'
        invariant
            n == args@.len(),
            j0 <= j <= n,
            hashes(args@, j0 as int) == (j - j0) + hashes(args@, j as int),
        decreases n - j,
    {
        j = j + 1;
    }
    j - j0
}

/// Where a raw string literal with `h` hashes whose body starts at `j0` ends.
fn raw_close(args: &str, n: usize, j0: usize, h: usize) -> (r: Option<usize>)
    requires
        n == args@.len(),
    ensures
        match r {
            Some(k) => raw_end(args@, j0 as int, h as nat) == Some(k as int) && j0 < k <= n,
            None => raw_end(args@, j0 as int, h as nat) is None,
        },
{
    let mut j = j0;
    while j < n
        invariant
            n == args@.len(),
            j0 <= j,
            raw_end(args@, j0 as int, h as nat) == raw_end(args@, j as int, h as nat),
        decreases n - j,
    {
        if args.get_char(j) == '"' {
            let c = hash_count(args, n, j + 1);
            if c >= h {
                return Some(j + 1 + h);
            }
        }
        j = j + 1;
    }
    None
}

/// Whether a raw string literal starts at `i`.
fn raw_string_at(args: &str, n: usize, i: usize) -> (b: bool)
    requires
        n == args@.len(),
        i < n,
    ensures
        b == raw_str_start(args@, i as int),
{
    let h = hash_count(args, n, i + 1);
    i + 1 + h < n && args.get_char(i + 1 + h) == '"'
}

/// Whether a raw identifier starts at `i`.
fn raw_ident_at(args: &str, n: usize, i: usize) -> (b: bool)
    requires
        n == args@.len(),
        i < n,
    ensures
        b == raw_ident_start(args@, i as int),
{
    if n - i > 2 && args.get_char(i + 1) == '#' {
        let c = args.get_char(i + 2);
        ident_char(c) && !digit_char(c)
    } else {
        false
    }
}

/// Where the run of identifier characters starting at `j0` ends.
fn ident_close(args: &str, n: usize, j0: usize) -> (r: usize)
    requires
        n == args@.len(),
        j0 <= n,
    ensures
        r as int == ident_end(args@, j0 as int),
        j0 <= r <= n,
{
    let mut j = j0;
    while j < n && ident_char(args.get_char(j))
        invariant
            n == args@.len(),
            j0 <= j <= n,
            ident_end(args@, j0 as int) == ident_end(args@, j as int),
        decreases n - j,
    {
        j = j + 1;
    }
    j
}

/// The tokens of the argument text; `None` when a string literal is not
/// closed.
pub fn lex(args: &str) -> (r: Option<Vec<Tok>>)
    ensures
        match r {
            Some(v) => lex_from(args@, 0) == Some(toks_view(v@)),
            None => lex_from(args@, 0) is None,
        },
{
    let n = args.unicode_len();
    let ghost s = args@;
    let mut toks: Vec<Tok> = Vec::new();
    let mut i: usize = 0;
    assert(toks_view(toks@) =~= Seq::<TokView>::empty());
    assert(prepend_all(Seq::<TokView>::empty(), lex_from(s, 0)) =~= lex_from(s, 0)) by {
        match lex_from(s, 0) {
            Some(r) => assert(Seq::<TokView>::empty() + r =~= r),
            None => {},
        }
    }
    while i < n
        invariant
            n == s.len(),
            s == args@,
            i <= n,
            lex_from(s, 0) == prepend_all(toks_view(toks@), lex_from(s, i as int)),
        decreases n - i,
    {
        let c = args.get_char(i);
        let ghost before = toks_view(toks@);
        let ghost rest_i = lex_from(s, i as int);
        if space_char(c) {
            i = i + 1;
        } else {
            let tok: Tok;
            let j: usize;
            if c == '"' {
                match str_close(args, n, i + 1) {
                    None => {
                        return None;
                    },
                    Some(e) => {
                        let k = ident_close(args, n, e);
                        tok = Tok::Str(String::from_str(args.substring_char(i, k)));
                        j = k;
                    },
                }
            } else if c == 'r' && raw_string_at(args, n, i) {
                let h = hash_count(args, n, i + 1);
                match raw_close(args, n, i + 2 + h, h) {
                    None => {
                        return None;
                    },
                    Some(e) => {
                        let k = ident_close(args, n, e);
                        tok = Tok::Str(String::from_str(args.substring_char(i, k)));
                        j = k;
                    },
                }
            } else if c == 'r' && raw_ident_at(args, n, i) {
                let k = ident_close(args, n, i + 2);
                tok = Tok::Ident(String::from_str(args.substring_char(i, k)));
                j = k;
            } else if c == '(' {
                tok = Tok::Open;
                j = i + 1;
            } else if c == ')' {
                tok = Tok::Close;
                j = i + 1;
            } else if c == ',' {
                tok = Tok::Comma;
                j = i + 1;
            } else if c == '=' {
                tok = Tok::Eq;
                j = i + 1;
            } else if c == ':' && i + 1 < n && args.get_char(i + 1) == ':' {
                tok = Tok::PathSep;
                j = i + 2;
            } else if ident_char(c) {
                let k = ident_close(args, n, i + 1);
                if digit_char(c) {
                    tok = Tok::Other;
                } else {
                    tok = Tok::Ident(String::from_str(args.substring_char(i, k)));
                }
                j = k;
            } else {
                tok = Tok::Other;
                j = i + 1;
            }
            assert(rest_i == prepend(tok@, lex_from(s, j as int)));
            toks.push(tok);
            assert(toks_view(toks@) =~= before.push(tok@));
            proof {
                match lex_from(s, j as int) {
                    Some(r) => {
                        assert(before.push(tok@) + r =~= before + (seq![tok@] + r));
                    },
                    None => {},
                }
            }
            i = j;
        }
    }
    assert(lex_from(s, n as int) == Some(Seq::<TokView>::empty()));
    assert(toks_view(toks@) + Seq::<TokView>::empty() =~= toks_view(toks@));
    Some(toks)
}

fn tok_is_path_sep(t: &Tok) -> (b: bool)
    ensures
        b == (t@ is PathSep),
{
    match t {
        Tok::PathSep => true,
        _ => false,
    }
}

fn tok_is_ident(t: &Tok) -> (b: bool)
    ensures
        b == (t@ is Ident),
{
    match t {
        Tok::Ident(_) => true,
        _ => false,
    }
}

fn tok_is_comma(t: &Tok) -> (b: bool)
    ensures
        b == (t@ is Comma),
{
    match t {
        Tok::Comma => true,
        _ => false,
    }
}

fn tok_is_eq(t: &Tok) -> (b: bool)
    ensures
        b == (t@ is Eq),
{
    match t {
        Tok::Eq => true,
        _ => false,
    }
}

fn tok_is_open(t: &Tok) -> (b: bool)
    ensures
        b == (t@ is Open),
{
    match t {
        Tok::Open => true,
        _ => false,
    }
}

/// Whether a path is the single plain identifier `s`.
fn is_named(name: &Option<String>, s: &str) -> (b: bool)
    ensures
        b == (opt_view(*name) == Some(s@)),
{
    match name {
        Some(n) => *n == String::from_str(s),
        None => false,
    }
}

/// A path at `i` (before `end`), as [`parse_path`] says.
fn path_at(toks: &Vec<Tok>, i: usize, end: usize) -> (r: Option<(Option<String>, usize)>)
    requires
        end <= toks.len(),
    ensures
        match r {
            Some((name, j)) => parse_path(toks_view(toks@), i as int, end as int) == Some(
                (opt_view(name), j as int),
            ) && i < j <= end,
            None => parse_path(toks_view(toks@), i as int, end as int) is None,
        },
{
    let ghost t = toks_view(toks@);
    let rooted = i < end && tok_is_path_sep(&toks[i]);
    proof {
        if i < end {
            assert(t[i as int] == toks@[i as int]@);
        }
    }
    let k = if rooted { i + 1 } else { i };
    if k >= end {
        return None;
    }
    assert(t[k as int] == toks@[k as int]@);
    match &toks[k] {
        Tok::Ident(name) => {
            let mut j = k + 1;
            let mut single = true;
            assert(parse_path(t, i as int, end as int) == match path_tail(t, k + 1, end as int, true) {
                Some((sg, jj)) => Some::<(Option<Seq<char>>, int)>((if sg && !rooted { Some(name@) } else { None }, jj)),
                None => None,
            });
            while j < end && tok_is_path_sep(&toks[j])
                invariant
                    end <= toks.len(),
                    t == toks_view(toks@),
                    k + 1 <= j <= end,
                    k < end,
                    parse_path(t, i as int, end as int) == match path_tail(t, k + 1, end as int, true) {
                        Some((sg, jj)) => Some::<(Option<Seq<char>>, int)>((if sg && !rooted { Some(name@) } else { None }, jj)),
                        None => None,
                    },
                    path_tail(t, k + 1, end as int, true) == path_tail(t, j as int, end as int, single),
                decreases end - j,
            {
                assert(t[j as int] == toks@[j as int]@);
                if j + 1 < end {
                    assert(t[j + 1] == toks@[j + 1]@);
                }
                if j + 1 < end && tok_is_ident(&toks[j + 1]) {
                    j = j + 2;
                    single = false;
                } else {
                    return None;
                }
            }
            proof {
                if j < end {
                    assert(t[j as int] == toks@[j as int]@);
                }
            }
            let n = if single && !rooted { Some(name.clone()) } else { None };
            Some((n, j))
        },
        _ => None,
    }
}

/// `= "…"` at `j`, as [`lit_value`] says.
fn lit_at(toks: &Vec<Tok>, j: usize, end: usize) -> (r: Option<(String, usize)>)
    requires
        end <= toks.len(),
    ensures
        match r {
            Some((v, k)) => lit_value(toks_view(toks@), j as int, end as int) == Some((v@, k as int))
                && j < k <= end,
            None => lit_value(toks_view(toks@), j as int, end as int) is None,
        },
{
    proof {
        if j < end && end - j > 1 {
            assert(toks_view(toks@)[j as int] == toks@[j as int]@);
            assert(toks_view(toks@)[j + 1] == toks@[j + 1]@);
        }
    }
    if j < end && end - j > 1 && tok_is_eq(&toks[j]) {
        match &toks[j + 1] {
            Tok::Str(text) => match lit_str_value(text.as_str()) {
                Some(v) => Some((v, j + 2)),
                None => None,
            },
            _ => None,
        }
    } else {
        None
    }
}

/// The closing parenthesis matching an open one just before `j0`.
fn close_at(toks: &Vec<Tok>, j0: usize) -> (r: Option<usize>)
    ensures
        match r {
            Some(c) => close_of(toks_view(toks@), j0 as int, 0) == Some(c as int) && j0 <= c < toks.len(),
            None => close_of(toks_view(toks@), j0 as int, 0) is None,
        },
{
    let ghost t = toks_view(toks@);
    let mut j = j0;
    let mut depth: usize = 0;
    while j < toks.len()
        invariant
            t == toks_view(toks@),
            j0 <= j,
            depth <= j - j0,
            close_of(t, j0 as int, 0) == close_of(t, j as int, depth as nat),
        decreases toks.len() - j,
    {
        assert(t[j as int] == toks@[j as int]@);
        match &toks[j] {
            Tok::Close => {
                if depth == 0 {
                    return Some(j);
                }
                depth = depth - 1;
            },
            Tok::Open => {
                depth = depth + 1;
            },
            _ => {},
        }
        j = j + 1;
    }
    None
}

/// The `field` and `equals` of the items of `visible_when(...)` from `i0` to
/// `end`, as [`when_from`] says.
fn when_items(toks: &Vec<Tok>, i0: usize, end: usize) -> (r: Result<(Option<String>, Option<String>), SettingError>)
    requires
        end <= toks.len(),
        i0 <= end,
    ensures
        match r {
            Ok((w, e)) => when_from(toks_view(toks@), i0 as int, end as int, None, None) == Ok::<
                (Option<Seq<char>>, Option<Seq<char>>),
                SettingError,
            >((opt_view(w), opt_view(e))),
            Err(x) => when_from(toks_view(toks@), i0 as int, end as int, None, None) == Err::<
                (Option<Seq<char>>, Option<Seq<char>>),
                SettingError,
            >(x),
        },
{
    let ghost t = toks_view(toks@);
    let mut i = i0;
    let mut w: Option<String> = None;
    let mut e: Option<String> = None;
    loop
        invariant
            end <= toks.len(),
            t == toks_view(toks@),
            i <= end,
            when_from(t, i0 as int, end as int, None, None) == when_from(
                t,
                i as int,
                end as int,
                opt_view(w),
                opt_view(e),
            ),
        decreases end - i,
    {
        match path_at(toks, i, end) {
            None => {
                return Err(SettingError::Malformed);
            },
            Some((name, j)) => {
                let nw: Option<String>;
                let ne: Option<String>;
                let k: usize;
                if is_named(&name, "field") {
                    match lit_at(toks, j, end) {
                        Some((v, kk)) => {
                            nw = Some(v);
                            ne = e;
                            k = kk;
                        },
                        None => {
                            return Err(SettingError::Malformed);
                        },
                    }
                } else if is_named(&name, "equals") {
                    match lit_at(toks, j, end) {
                        Some((v, kk)) => {
                            nw = w;
                            ne = Some(v);
                            k = kk;
                        },
                        None => {
                            return Err(SettingError::Malformed);
                        },
                    }
                } else {
                    nw = w;
                    ne = e;
                    k = j;
                }
                if k >= end {
                    return Ok((nw, ne));
                }
                assert(t[k as int] == toks@[k as int]@);
                if !tok_is_comma(&toks[k]) {
                    return Err(SettingError::Malformed);
                }
                if k + 1 >= end {
                    return Ok((nw, ne));
                }
                i = k + 1;
                w = nw;
                e = ne;
            },
        }
    }
}

/// One item at `i`, as [`spec_item`] says.
fn item_at(toks: &Vec<Tok>, i: usize) -> (r: Result<(SettingMeta, usize), SettingError>)
    ensures
        match r {
            Ok((m, j)) => spec_item(toks_view(toks@), i as int) == Ok::<(SettingMetaView, int), SettingError>(
                (m@, j as int),
            ) && i < j <= toks.len(),
            Err(x) => spec_item(toks_view(toks@), i as int) == Err::<(SettingMetaView, int), SettingError>(x),
        },
{
    let end = toks.len();
    match path_at(toks, i, end) {
        None => Err(SettingError::Malformed),
        Some((name, j)) => {
            if is_named(&name, "label") {
                match lit_at(toks, j, end) {
                    Some((v, k)) => Ok((SettingMeta::Label(v), k)),
                    None => Err(SettingError::Malformed),
                }
            } else if is_named(&name, "get") {
                match lit_at(toks, j, end) {
                    Some((v, k)) => Ok((SettingMeta::Get(v), k)),
                    None => Err(SettingError::Malformed),
                }
            } else if is_named(&name, "secret") {
                Ok((SettingMeta::Secret, j))
            } else if is_named(&name, "enumerated") {
                Ok((SettingMeta::Enumerated, j))
            } else if is_named(&name, "text") {
                Ok((SettingMeta::Text, j))
            } else if is_named(&name, "visible_when") {
                proof {
                    if j < end {
                        assert(toks_view(toks@)[j as int] == toks@[j as int]@);
                    }
                }
                if j < end && tok_is_open(&toks[j]) {
                    match close_at(toks, j + 1) {
                        None => Err(SettingError::Malformed),
                        Some(c) => match when_items(toks, j + 1, c) {
                            Err(x) => Err(x),
                            Ok((Some(w), Some(e))) => Ok((SettingMeta::VisibleWhen(w, e), c + 1)),
                            Ok(_) => Err(SettingError::IncompleteVisibleWhen),
                        },
                    }
                } else {
                    Err(SettingError::Malformed)
                }
            } else {
                Err(SettingError::UnknownAttribute)
            }
        },
    }
}

/// The items of the arguments of `#[setting(...)]`, as
/// [`spec_setting_items`] says.
pub fn parse_setting_items(args: &str) -> (r: Result<Vec<SettingMeta>, SettingError>)
    ensures
        match r {
            Ok(ms) => spec_setting_items(args@) == Ok::<Seq<SettingMetaView>, SettingError>(
                metas_view(ms@),
            ),
            Err(e) => spec_setting_items(args@) == Err::<Seq<SettingMetaView>, SettingError>(e),
        },
{
    let toks = match lex(args) {
        None => {
            return Err(SettingError::Malformed);
        },
        Some(toks) => toks,
    };
    let ghost t = toks_view(toks@);
    if toks.len() == 0 {
        let r: Vec<SettingMeta> = Vec::new();
        assert(metas_view(r@) =~= Seq::<SettingMetaView>::empty());
        return Ok(r);
    }
    let mut metas: Vec<SettingMeta> = Vec::new();
    let mut i: usize = 0;
    assert(prepend_ok(metas_view(metas@), items_from(t, 0)) == items_from(t, 0)) by {
        assert(metas_view(metas@) =~= Seq::<SettingMetaView>::empty());
        match items_from(t, 0) {
            Ok(r) => assert(Seq::<SettingMetaView>::empty() + r =~= r),
            Err(_) => {},
        }
    }
    assert(spec_setting_items(args@) == items_from(t, 0));
    loop
        invariant
            spec_setting_items(args@) == items_from(t, 0),
            t == toks_view(toks@),
            t.len() == toks.len(),
            i < toks.len(),
            items_from(t, 0) == prepend_ok(metas_view(metas@), items_from(t, i as int)),
        decreases toks.len() - i,
    {
        let ghost before = metas_view(metas@);
        match item_at(&toks, i) {
            Err(x) => {
                assert(items_from(t, i as int) == Err::<Seq<SettingMetaView>, SettingError>(x));
                return Err(x);
            },
            Ok((m, j)) => {
                let ghost mv = m@;
                proof {
                    if j < toks.len() {
                        assert(t[j as int] == toks@[j as int]@);
                    }
                }
                metas.push(m);
                assert(metas_view(metas@) =~= before.push(mv));
                if j >= toks.len() {
                    assert(before + seq![mv] =~= before.push(mv));
                    return Ok(metas);
                }
                if !tok_is_comma(&toks[j]) {
                    return Err(SettingError::Malformed);
                }
                if j + 1 >= toks.len() {
                    assert(before + seq![mv] =~= before.push(mv));
                    return Ok(metas);
                }
                proof {
                    match items_from(t, j + 1) {
                        Ok(r) => assert(before.push(mv) + r =~= before + (seq![mv] + r)),
                        Err(_) => {},
                    }
                }
                i = j + 1;
            },
        }
    }
}

} // verus!
