//! The plain shape of one attribute item, and its extraction from syntax.
//!
//! An attribute's arguments are a comma-separated list of items. Each item is
//! reduced here to what the grammar inspects: its key (when it is a single
//! plain identifier), the form of what follows the key, and its source
//! location. The syntax types themselves stay opaque and are only carried
//! through.

use vstd::prelude::*;
use syn::spanned::Spanned;

verus! {

#[verifier::external_type_specification]
#[verifier::external_body]
pub struct ExSpan(proc_macro2::Span);

#[verifier::external_type_specification]
#[verifier::external_body]
pub struct ExAttribute(syn::Attribute);

#[verifier::external_type_specification]
#[verifier::external_body]
pub struct ExMeta(syn::Meta);

#[verifier::external_type_specification]
#[verifier::external_body]
pub struct ExExpr(syn::Expr);

#[verifier::external_type_specification]
#[verifier::external_body]
pub struct ExType(syn::Type);

#[verifier::external_type_specification]
#[verifier::external_body]
pub struct ExVisibility(syn::Visibility);

#[verifier::external_type_specification]
#[verifier::external_body]
pub struct ExField(syn::Field);

/// Why a parse was rejected.
#[derive(Clone, Copy, PartialEq, Eq, Structural, Debug)]
pub enum ErrorKind {
    /// The item's key is not a plain identifier.
    MalformedKey,
    /// The key is an identifier, but not one of the supported properties.
    UnsupportedKey,
    /// A value-requiring key lacks its `= value` form.
    MissingValue,
    /// A value is present but does not have the form the key requires.
    MalformedValue,
    /// The string given for `uuid` is not a valid UUID.
    InvalidUuid,
    /// The whole item list was consumed without a `uuid` item.
    MissingUuid,
}

/// A positioned, human-readable description of why parsing failed.
pub struct Diagnostic {
    pub kind: ErrorKind,
    pub message: String,
    pub span: proc_macro2::Span,
}

/// The `= value` right-hand side of an item, read in each form the grammar
/// may ask of it.
pub struct RhsValue {
    /// The inner text, when the value is a plain string literal.
    pub str_lit: Option<String>,
    /// The name, when the value is a plain identifier.
    pub ident: Option<String>,
    /// The value expression itself, uninterpreted.
    pub expr: syn::Expr,
}

/// What follows an item's key.
pub enum Rhs {
    /// Nothing: a bare key.
    Bare,
    /// A parenthesized list, which no key of this grammar accepts.
    List,
    /// An `= value` pair.
    Valued(RhsValue),
}

/// One comma-separated item of an attribute annotation.
pub struct MetaItem {
    /// The key, when it is a single plain identifier.
    pub key: Option<String>,
    pub rhs: Rhs,
    pub span: proc_macro2::Span,
}

/// The form of one Meta, with a pair's value expression moved out.
pub enum MetaVal {
    Bare,
    List,
    Value(syn::Expr),
}

/// What Punctuated::parse_terminated yields for the attribute's arguments:
/// its Meta items in order, or the syntax error's message and location.
pub uninterp spec fn spec_attr_metas(a: syn::Attribute) -> Result<
    Seq<syn::Meta>,
    (Seq<char>, proc_macro2::Span),
>;

/// What Path::get_ident yields for one Meta's key path, rendered to text.
pub uninterp spec fn spec_meta_key(m: syn::Meta) -> Option<Seq<char>>;

/// Which of its three forms one Meta has, with a pair's value expression.
pub uninterp spec fn spec_meta_val(m: syn::Meta) -> MetaVal;

/// What LitStr::value yields when the expression is a plain string literal.
pub uninterp spec fn spec_expr_str_lit(e: syn::Expr) -> Option<Seq<char>>;

/// What Path::get_ident yields when the expression is one plain identifier.
pub uninterp spec fn spec_expr_ident(e: syn::Expr) -> Option<Seq<char>>;

/// The source location of one Meta.
pub uninterp spec fn spec_meta_span(m: syn::Meta) -> proc_macro2::Span;

/// The source location of a whole attribute.
pub uninterp spec fn spec_attr_span(a: syn::Attribute) -> proc_macro2::Span;

/// Relies on syn::MetaList::parse_args_with and Punctuated::parse_terminated:
/// the attribute's arguments parsed as comma-separated Meta items when the
/// attribute has its parenthesized-list form; a bare or name-value
/// attribute, which carries no argument list, is answered with an error at
/// its location, so the call is total even on a hand-assembled attribute
/// whose path is empty. A token-level syntax error is rendered to its
/// message and location. The outcome depends on the attribute alone, so it
/// carries the name spec_attr_metas.
#[verifier::external_body]
fn attr_metas(attr: &syn::Attribute) -> (r: Result<Vec<syn::Meta>, (String, proc_macro2::Span)>)
    ensures
        match r {
            Ok(v) => spec_attr_metas(*attr) matches Ok(s) && v@ == s,
            Err(e) => spec_attr_metas(*attr) matches Err(s) && e.0@ == s.0 && e.1 == s.1,
        },
{
    match &attr.meta {
        syn::Meta::List(list) => list.parse_args_with(
            syn::punctuated::Punctuated::<syn::Meta, syn::token::Comma>::parse_terminated,
        ).map(|p| p.into_iter().collect()).map_err(|e| (e.to_string(), e.span())),
        syn::Meta::Path(_) => Err((
            String::from("expected attribute arguments in parentheses"),
            attr.meta.span(),
        )),
        syn::Meta::NameValue(_) => Err((String::from("expected parentheses"), attr.meta.span())),
    }
}

/// Relies on syn::Path::get_ident: the item's key, when its path is one plain
/// identifier without arguments. The key depends on the Meta alone, so it
/// carries the name spec_meta_key.
#[verifier::external_body]
fn meta_key(m: &syn::Meta) -> (r: Option<String>)
    ensures
        match r {
            Some(k) => spec_meta_key(*m) == Some(k@),
            None => spec_meta_key(*m) is None,
        },
{
    m.path().get_ident().map(|i| i.to_string())
}

/// Relies on syn::Meta's three variants: a bare path, a parenthesized list,
/// or an `= value` pair, whose expression is cloned out. The form depends on
/// the Meta alone, so it carries the name spec_meta_val.
#[verifier::external_body]
fn meta_val(m: &syn::Meta) -> (r: MetaVal)
    ensures
        r == spec_meta_val(*m),
{
    match m {
        syn::Meta::Path(_) => MetaVal::Bare,
        syn::Meta::List(_) => MetaVal::List,
        syn::Meta::NameValue(nv) => MetaVal::Value(nv.value.clone()),
    }
}

/// Relies on syn::LitStr::value: the inner text, when the expression is a
/// plain string literal. The text depends on the expression alone, so it
/// carries the name spec_expr_str_lit.
#[verifier::external_body]
fn expr_str_lit(e: &syn::Expr) -> (r: Option<String>)
    ensures
        match r {
            Some(s) => spec_expr_str_lit(*e) == Some(s@),
            None => spec_expr_str_lit(*e) is None,
        },
{
    match e {
        syn::Expr::Lit(l) => match &l.lit {
            syn::Lit::Str(s) => Some(s.value()),
            _ => None,
        },
        _ => None,
    }
}

/// Relies on syn::Path::get_ident: the name, when the expression is one plain
/// path identifier. The name depends on the expression alone, so it carries
/// the name spec_expr_ident.
#[verifier::external_body]
fn expr_ident(e: &syn::Expr) -> (r: Option<String>)
    ensures
        match r {
            Some(s) => spec_expr_ident(*e) == Some(s@),
            None => spec_expr_ident(*e) is None,
        },
{
    match e {
        syn::Expr::Path(p) => {
            if p.qself.is_none() {
                p.path.get_ident().map(|i| i.to_string())
            } else {
                None
            }
        },
        _ => None,
    }
}

/// How an extracted right-hand side reflects a Meta's named form.
pub open spec fn rhs_matches_val(r: Rhs, mv: MetaVal) -> bool {
    match mv {
        MetaVal::Bare => r is Bare,
        MetaVal::List => r is List,
        MetaVal::Value(e) => r matches Rhs::Valued(v) && v.expr == e && (match v.str_lit {
            Some(s) => spec_expr_str_lit(e) == Some(s@),
            None => spec_expr_str_lit(e) is None,
        }) && (match v.ident {
            Some(s) => spec_expr_ident(e) == Some(s@),
            None => spec_expr_ident(e) is None,
        }),
    }
}

/// Reads one Meta's right-hand side into the forms the grammar may ask of
/// it.
fn meta_rhs(m: &syn::Meta) -> (r: Rhs)
    ensures
        rhs_matches_val(r, spec_meta_val(*m)),
{
    match meta_val(m) {
        MetaVal::Bare => Rhs::Bare,
        MetaVal::List => Rhs::List,
        MetaVal::Value(e) => {
            let str_lit = expr_str_lit(&e);
            let ident = expr_ident(&e);
            Rhs::Valued(RhsValue { str_lit, ident, expr: e })
        },
    }
}

/// Relies on syn::spanned::Spanned: the source location of one item. The
/// location depends on the Meta alone, so it carries the name spec_meta_span.
#[verifier::external_body]
fn meta_span(m: &syn::Meta) -> (r: proc_macro2::Span)
    ensures
        r == spec_meta_span(*m),
{
    m.span()
}

/// Relies on syn::spanned::Spanned: the source location of the whole
/// attribute; it carries the name spec_attr_span.
#[verifier::external_body]
pub fn attr_span(attr: &syn::Attribute) -> (r: proc_macro2::Span)
    ensures
        r == spec_attr_span(*attr),
{
    attr.span()
}

/// Relies on syn::Expr's derived Clone, which reproduces the expression.
#[verifier::external_body]
pub fn clone_expr(e: &syn::Expr) -> (r: syn::Expr)
    ensures
        r == *e,
{
    e.clone()
}

/// How one plain item reflects the Meta it was read from, through the names
/// of the trusted readers.
pub open spec fn item_matches_meta(it: MetaItem, m: syn::Meta) -> bool {
    &&& (match it.key {
        Some(k) => spec_meta_key(m) == Some(k@),
        None => spec_meta_key(m) is None,
    })
    &&& it.span == spec_meta_span(m)
    &&& rhs_matches_val(it.rhs, spec_meta_val(m))
}

/// Pointwise: each item reflects its Meta.
pub open spec fn items_match_metas(items: Seq<MetaItem>, metas: Seq<syn::Meta>) -> bool {
    &&& items.len() == metas.len()
    &&& (forall|i: int| 0 <= i < metas.len() ==> item_matches_meta(#[trigger] items[i], metas[i]))
}

/// Reduces the attribute's arguments to plain items, one per Meta of the
/// named tokenization; a token-level syntax error comes back as the one
/// diagnostic the grammar cannot attribute to an item.
pub fn meta_items(attr: &syn::Attribute) -> (r: Result<Vec<MetaItem>, Diagnostic>)
    ensures
        match spec_attr_metas(*attr) {
            Ok(metas) => r matches Ok(items) && items_match_metas(items@, metas),
            Err(e) => r matches Err(d) && d.kind == ErrorKind::MalformedValue && d.message@ == e.0
                && d.span == e.1,
        },
{
    match attr_metas(attr) {
        Ok(metas) => {
            let mut items: Vec<MetaItem> = Vec::new();
            let mut i: usize = 0;
            while i < metas.len()
                invariant
                    0 <= i <= metas@.len(),
                    items@.len() == i,
                    spec_attr_metas(*attr) matches Ok(s) && metas@ == s,
                    forall|j: int|
                        0 <= j < i ==> item_matches_meta(#[trigger] items@[j], metas@[j]),
                decreases metas.len() - i,
            {
                let m = &metas[i];
                items.push(MetaItem { key: meta_key(m), rhs: meta_rhs(m), span: meta_span(m) });
                i += 1;
            }
            Ok(items)
        },
        Err((message, span)) => Err(
            Diagnostic { kind: ErrorKind::MalformedValue, message, span },
        ),
    }
}

} // verus!
