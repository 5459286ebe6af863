//! The descriptor attribute grammar: the same key-value mechanism as the
//! characteristic grammar, scoped to a nested descriptor item. Two keys are
//! supported: `uuid`, whose value is required, and `value`, which is
//! optional.

use vstd::prelude::*;
use vstd::string::*;

use crate::meta::{
    Diagnostic,
    ErrorKind,
    MetaItem,
    MetaVal,
    Rhs,
    attr_span,
    clone_expr,
    item_matches_meta,
    items_match_metas,
    meta_items,
    spec_attr_metas,
    spec_attr_span,
    spec_expr_str_lit,
    spec_meta_key,
    spec_meta_span,
    spec_meta_val,
};
use crate::uuid::{Uuid, spec_parse_uuid, invalid_uuid_msg};
use crate::characteristic::{
    MetaCheck,
    msg_no_ident,
    msg_uuid_needs_value,
    msg_value_needs_value,
    msg_expected_string_literal,
};

verus! {

pub open spec fn desc_unsupported_msg(k: Seq<char>) -> Seq<char> {
    "Unsupported descriptor property: '"@ + k + "'.\nSupported properties are: uuid, value"@
}

pub open spec fn msg_missing_desc_uuid() -> Seq<char> {
    "Descriptor must have a UUID"@
}

fn desc_unsupported_message(k: &String) -> (m: String)
    ensures
        m@ == desc_unsupported_msg(k@),
{
    let mut m = String::from_str("Unsupported descriptor property: '");
    m.append(k.as_str());
    m.append("'.\nSupported properties are: uuid, value");
    m
}

/// Metadata for one optional descriptor attached to a characteristic.
pub struct DescriptorArgs {
    /// The UUID of the descriptor, required by its field type.
    pub uuid: Uuid,
    /// The value expression of the descriptor, stored unevaluated.
    pub value: Option<syn::Expr>,
}

/// What one descriptor item does to the record, or the diagnostic it raises.
pub enum DescCheck {
    SetUuid(Uuid),
    SetValue(syn::Expr),
    Fail(ErrorKind, Seq<char>),
}

/// The per-item rule of the descriptor grammar.
pub open spec fn desc_check_item(it: MetaItem) -> DescCheck {
    match it.key {
        None => DescCheck::Fail(ErrorKind::MalformedKey, msg_no_ident()),
        Some(k) => if k@ == "uuid"@ {
            match it.rhs {
                Rhs::Valued(v) => match v.str_lit {
                    Some(s) => match spec_parse_uuid(s@) {
                        Some(u) => DescCheck::SetUuid(u),
                        None => DescCheck::Fail(ErrorKind::InvalidUuid, invalid_uuid_msg()),
                    },
                    None => DescCheck::Fail(ErrorKind::MalformedValue, msg_expected_string_literal()),
                },
                _ => DescCheck::Fail(ErrorKind::MissingValue, msg_uuid_needs_value()),
            }
        } else if k@ == "value"@ {
            match it.rhs {
                Rhs::Valued(v) => DescCheck::SetValue(v.expr),
                _ => DescCheck::Fail(ErrorKind::MissingValue, msg_value_needs_value()),
            }
        } else {
            DescCheck::Fail(ErrorKind::UnsupportedKey, desc_unsupported_msg(k@))
        },
    }
}

pub open spec fn desc_item_fails(it: MetaItem) -> bool {
    desc_check_item(it) is Fail
}

pub open spec fn no_desc_item_fails(items: Seq<MetaItem>) -> bool {
    forall|i: int| 0 <= i < items.len() ==> !desc_item_fails(#[trigger] items[i])
}

/// The UUID of the last uuid item, if any.
pub open spec fn desc_last_uuid(items: Seq<MetaItem>) -> Option<Uuid>
    decreases items.len(),
{
    if items.len() == 0 {
        None
    } else {
        match desc_check_item(items.last()) {
            DescCheck::SetUuid(u) => Some(u),
            _ => desc_last_uuid(items.drop_last()),
        }
    }
}

/// The expression of the last value item, if any.
pub open spec fn desc_last_value(items: Seq<MetaItem>) -> Option<syn::Expr>
    decreases items.len(),
{
    if items.len() == 0 {
        None
    } else {
        match desc_check_item(items.last()) {
            DescCheck::SetValue(e) => Some(e),
            _ => desc_last_value(items.drop_last()),
        }
    }
}

pub open spec fn desc_item_fail_at(items: Seq<MetaItem>, i: int, d: Diagnostic) -> bool {
    &&& desc_item_fails(items[i])
    &&& (forall|j: int| 0 <= j < i ==> !desc_item_fails(#[trigger] items[j]))
    &&& (desc_check_item(items[i]) matches DescCheck::Fail(k, m) && d.kind == k && d.message@ == m
        && d.span == items[i].span)
}

/// The whole contract of parsing one descriptor item list.
pub open spec fn desc_result_spec(
    items: Seq<MetaItem>,
    attr_loc: proc_macro2::Span,
    r: Result<DescriptorArgs, Diagnostic>,
) -> bool {
    &&& (r is Ok <==> (no_desc_item_fails(items) && desc_last_uuid(items) is Some))
    &&& match r {
        Ok(args) => Some(args.uuid) == desc_last_uuid(items) && args.value == desc_last_value(
            items,
        ),
        Err(d) => {
            ||| (exists|i: int| 0 <= i < items.len() && #[trigger] desc_item_fail_at(items, i, d))
            ||| (no_desc_item_fails(items) && desc_last_uuid(items) is None && d.kind
                == ErrorKind::MissingUuid && d.message@ == msg_missing_desc_uuid() && d.span
                == attr_loc)
        },
    }
}

/// The per-item rule of the descriptor grammar, restated over syn::Meta.
pub open spec fn desc_check_meta(m: syn::Meta) -> MetaCheck {
    match spec_meta_key(m) {
        None => MetaCheck::Fail(ErrorKind::MalformedKey, msg_no_ident()),
        Some(k) => if k == "uuid"@ {
            match spec_meta_val(m) {
                MetaVal::Value(e) => match spec_expr_str_lit(e) {
                    Some(s) => match spec_parse_uuid(s) {
                        Some(u) => MetaCheck::SetUuid(u),
                        None => MetaCheck::Fail(ErrorKind::InvalidUuid, invalid_uuid_msg()),
                    },
                    None => MetaCheck::Fail(
                        ErrorKind::MalformedValue,
                        msg_expected_string_literal(),
                    ),
                },
                _ => MetaCheck::Fail(ErrorKind::MissingValue, msg_uuid_needs_value()),
            }
        } else if k == "value"@ {
            match spec_meta_val(m) {
                MetaVal::Value(e) => MetaCheck::SetValue(e),
                _ => MetaCheck::Fail(ErrorKind::MissingValue, msg_value_needs_value()),
            }
        } else {
            MetaCheck::Fail(ErrorKind::UnsupportedKey, desc_unsupported_msg(k))
        },
    }
}

/// The two readings of one descriptor item agree.
pub open spec fn desc_check_corresponds(ci: DescCheck, cm: MetaCheck) -> bool {
    match (ci, cm) {
        (DescCheck::SetUuid(u), MetaCheck::SetUuid(w)) => u == w,
        (DescCheck::SetValue(e), MetaCheck::SetValue(e2)) => e == e2,
        (DescCheck::Fail(k, m1), MetaCheck::Fail(k2, m2)) => k == k2 && m1 == m2,
        _ => false,
    }
}

proof fn lemma_desc_check_corresponds(it: MetaItem, m: syn::Meta)
    requires
        item_matches_meta(it, m),
    ensures
        desc_check_corresponds(desc_check_item(it), desc_check_meta(m)),
{
}

pub open spec fn desc_meta_fails(m: syn::Meta) -> bool {
    desc_check_meta(m) is Fail
}

pub open spec fn no_desc_meta_fails(metas: Seq<syn::Meta>) -> bool {
    forall|i: int| 0 <= i < metas.len() ==> !desc_meta_fails(#[trigger] metas[i])
}

/// The UUID of the last uuid Meta, if any.
pub open spec fn desc_meta_last_uuid(metas: Seq<syn::Meta>) -> Option<Uuid>
    decreases metas.len(),
{
    if metas.len() == 0 {
        None
    } else {
        match desc_check_meta(metas.last()) {
            MetaCheck::SetUuid(u) => Some(u),
            _ => desc_meta_last_uuid(metas.drop_last()),
        }
    }
}

/// The expression of the last value Meta, if any.
pub open spec fn desc_meta_last_value(metas: Seq<syn::Meta>) -> Option<syn::Expr>
    decreases metas.len(),
{
    if metas.len() == 0 {
        None
    } else {
        match desc_check_meta(metas.last()) {
            MetaCheck::SetValue(e) => Some(e),
            _ => desc_meta_last_value(metas.drop_last()),
        }
    }
}

/// The diagnostic of the first failing Meta, and nothing before it failing.
pub open spec fn desc_meta_fail_at(metas: Seq<syn::Meta>, i: int, d: Diagnostic) -> bool {
    &&& desc_meta_fails(metas[i])
    &&& (forall|j: int| 0 <= j < i ==> !desc_meta_fails(#[trigger] metas[j]))
    &&& (desc_check_meta(metas[i]) matches MetaCheck::Fail(k, m) && d.kind == k && d.message@ == m
        && d.span == spec_meta_span(metas[i]))
}

/// The whole contract of parsing one descriptor attribute, over its named
/// Meta list.
pub open spec fn desc_result_spec_metas(
    metas: Seq<syn::Meta>,
    attr_loc: proc_macro2::Span,
    r: Result<DescriptorArgs, Diagnostic>,
) -> bool {
    &&& (r is Ok <==> (no_desc_meta_fails(metas) && desc_meta_last_uuid(metas) is Some))
    &&& match r {
        Ok(args) => Some(args.uuid) == desc_meta_last_uuid(metas) && args.value
            == desc_meta_last_value(metas),
        Err(d) => {
            ||| (exists|i: int|
                0 <= i < metas.len() && #[trigger] desc_meta_fail_at(metas, i, d))
            ||| (no_desc_meta_fails(metas) && desc_meta_last_uuid(metas) is None && d.kind
                == ErrorKind::MissingUuid && d.message@ == msg_missing_desc_uuid() && d.span
                == attr_loc)
        },
    }
}

proof fn lemma_desc_matching_drop_last(items: Seq<MetaItem>, metas: Seq<syn::Meta>)
    requires
        items_match_metas(items, metas),
        metas.len() > 0,
    ensures
        items_match_metas(items.drop_last(), metas.drop_last()),
        item_matches_meta(items.last(), metas.last()),
{
    assert forall|j: int|
        0 <= j < metas.drop_last().len() implies item_matches_meta(
        #[trigger] items.drop_last()[j],
        metas.drop_last()[j],
    ) by {
        assert(items.drop_last()[j] == items[j]);
        assert(metas.drop_last()[j] == metas[j]);
    }
}

proof fn lemma_desc_bridge_lasts(items: Seq<MetaItem>, metas: Seq<syn::Meta>)
    requires
        items_match_metas(items, metas),
    ensures
        desc_meta_last_uuid(metas) == desc_last_uuid(items),
        desc_meta_last_value(metas) == desc_last_value(items),
    decreases metas.len(),
{
    if metas.len() > 0 {
        lemma_desc_matching_drop_last(items, metas);
        lemma_desc_check_corresponds(items.last(), metas.last());
        lemma_desc_bridge_lasts(items.drop_last(), metas.drop_last());
    }
}

/// Carries the exact item-level parse outcome over to the Meta list the
/// items were read from.
proof fn lemma_desc_metas_bridge(
    items: Seq<MetaItem>,
    metas: Seq<syn::Meta>,
    attr_loc: proc_macro2::Span,
    r: Result<DescriptorArgs, Diagnostic>,
)
    requires
        items_match_metas(items, metas),
        desc_result_spec(items, attr_loc, r),
    ensures
        desc_result_spec_metas(metas, attr_loc, r),
{
    lemma_desc_bridge_lasts(items, metas);
    assert forall|i: int|
        0 <= i < metas.len() implies desc_meta_fails(#[trigger] metas[i]) == desc_item_fails(
        items[i],
    ) by {
        lemma_desc_check_corresponds(items[i], metas[i]);
    }
    if no_desc_item_fails(items) {
        assert forall|i: int|
            0 <= i < metas.len() implies !desc_meta_fails(#[trigger] metas[i]) by {
            assert(!desc_item_fails(items[i]));
        }
    }
    if no_desc_meta_fails(metas) {
        assert forall|i: int|
            0 <= i < items.len() implies !desc_item_fails(#[trigger] items[i]) by {
            assert(!desc_meta_fails(metas[i]));
        }
    }
    match r {
        Ok(_) => {},
        Err(d) => {
            if exists|i: int| 0 <= i < items.len() && #[trigger] desc_item_fail_at(items, i, d) {
                let i = choose|i: int| 0 <= i < items.len() && #[trigger] desc_item_fail_at(
                    items,
                    i,
                    d,
                );
                lemma_desc_check_corresponds(items[i], metas[i]);
                assert forall|j: int| 0 <= j < i implies !desc_meta_fails(#[trigger] metas[j]) by {
                    assert(!desc_item_fails(items[j]));
                }
                assert(desc_meta_fail_at(metas, i, d));
            }
        },
    }
}

impl DescriptorArgs {
    /// Walks one descriptor item list, left to right and fail-fast, then
    /// enforces that a UUID was supplied.
    pub fn parse_items(items: &Vec<MetaItem>, attr_loc: proc_macro2::Span) -> (r: Result<
        DescriptorArgs,
        Diagnostic,
    >)
        ensures
            desc_result_spec(items@, attr_loc, r),
    {
        let mut uuid: Option<Uuid> = None;
        let mut value: Option<syn::Expr> = None;
        proof {
            assert(items@.subrange(0, 0) =~= Seq::<MetaItem>::empty());
        }
        let mut i: usize = 0;
        while i < items.len()
            invariant
                0 <= i <= items@.len(),
                forall|j: int| 0 <= j < i ==> !desc_item_fails(#[trigger] items@[j]),
                uuid == desc_last_uuid(items@.subrange(0, i as int)),
                value == desc_last_value(items@.subrange(0, i as int)),
            decreases items@.len() - i,
        {
            let ghost p0 = items@.subrange(0, i as int);
            let ghost cur = items@[i as int];
            let it = &items[i];
            proof {
                let p1 = items@.subrange(0, i + 1 as int);
                assert(p1 =~= p0.push(cur));
                assert(p1.drop_last() =~= p0);
            }
            match Self::apply_item(&mut uuid, &mut value, it) {
                Ok(()) => {},
                Err(d) => {
                    proof {
                        assert(desc_item_fail_at(items@, i as int, d));
                    }
                    return Err(d);
                },
            }
            i += 1;
        }
        proof {
            assert(items@.subrange(0, items@.len() as int) =~= items@);
        }
        match uuid {
            Some(u) => Ok(DescriptorArgs { uuid: u, value }),
            None => Err(
                Diagnostic {
                    kind: ErrorKind::MissingUuid,
                    message: String::from_str("Descriptor must have a UUID"),
                    span: attr_loc,
                },
            ),
        }
    }

    /// Applies one descriptor item to the accumulators, or reports why it is
    /// invalid.
    fn apply_item(
        uuid: &mut Option<Uuid>,
        value: &mut Option<syn::Expr>,
        it: &MetaItem,
    ) -> (r: Result<(), Diagnostic>)
        ensures
            ({
                let c = desc_check_item(*it);
                match c {
                    DescCheck::SetUuid(u) => r is Ok && *final(uuid) == Some(u) && *final(value)
                        == *old(value),
                    DescCheck::SetValue(e) => r is Ok && *final(value) == Some(e) && *final(uuid)
                        == *old(uuid),
                    DescCheck::Fail(k, m) => (r matches Err(d) && d.kind == k && d.message@ == m
                        && d.span == it.span) && *final(uuid) == *old(uuid) && *final(value)
                        == *old(value),
                }
            }),
    {
        match &it.key {
            None => Err(
                Diagnostic {
                    kind: ErrorKind::MalformedKey,
                    message: String::from_str("no ident"),
                    span: it.span,
                },
            ),
            Some(k) => {
                if *k == String::from_str("uuid") {
                    match &it.rhs {
                        Rhs::Valued(v) => match &v.str_lit {
                            Some(s) => match Uuid::from_string(s.as_str()) {
                                Ok(u) => {
                                    *uuid = Some(u);
                                    Ok(())
                                },
                                Err(m) => Err(
                                    Diagnostic {
                                        kind: ErrorKind::InvalidUuid,
                                        message: m,
                                        span: it.span,
                                    },
                                ),
                            },
                            None => Err(
                                Diagnostic {
                                    kind: ErrorKind::MalformedValue,
                                    message: String::from_str("expected string literal"),
                                    span: it.span,
                                },
                            ),
                        },
                        _ => Err(
                            Diagnostic {
                                kind: ErrorKind::MissingValue,
                                message: String::from_str(
                                    "uuid must be followed by '= [data]'.  i.e. uuid = '0x2A37'",
                                ),
                                span: it.span,
                            },
                        ),
                    }
                } else if *k == String::from_str("value") {
                    match &it.rhs {
                        Rhs::Valued(v) => {
                            *value = Some(clone_expr(&v.expr));
                            Ok(())
                        },
                        _ => Err(
                            Diagnostic {
                                kind: ErrorKind::MissingValue,
                                message: String::from_str(
                                    "value must be followed by '= [data]'.  i.e. value = 'hello'",
                                ),
                                span: it.span,
                            },
                        ),
                    }
                } else {
                    Err(
                        Diagnostic {
                            kind: ErrorKind::UnsupportedKey,
                            message: desc_unsupported_message(k),
                            span: it.span,
                        },
                    )
                }
            },
        }
    }

    /// Parse the arguments of a descriptor attribute.
    ///
    /// The attribute's named Meta list decides the outcome: a token-level
    /// syntax error comes back as-is; otherwise the descriptor grammar
    /// contract holds over that list, so success is owed exactly when every
    /// named item is well-formed and one of them supplies a UUID.
    pub fn parse(attribute: &syn::Attribute) -> (r: Result<DescriptorArgs, Diagnostic>)
        ensures
            match spec_attr_metas(*attribute) {
                Ok(metas) => desc_result_spec_metas(metas, spec_attr_span(*attribute), r),
                Err(e) => r matches Err(d) && d.kind == ErrorKind::MalformedValue && d.message@
                    == e.0 && d.span == e.1,
            },
    {
        let loc = attr_span(attribute);
        match meta_items(attribute) {
            Ok(items) => {
                let r = Self::parse_items(&items, loc);
                proof {
                    if let Ok(metas) = spec_attr_metas(*attribute) {
                        lemma_desc_metas_bridge(items@, metas, loc, r);
                    }
                }
                r
            },
            Err(d) => Err(d),
        }
    }
}

} // verus!
