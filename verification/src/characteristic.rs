//! The characteristic attribute grammar: dispatch on a fixed key set,
//! value-form checking, and the one cross-field rule that a UUID must be
//! present.
//!
//! Parsing walks the item list once, left to right, keeping a mutable
//! argument record, and stops at the first invalid item. After a clean walk
//! the record is valid exactly when some item supplied a UUID.

use vstd::prelude::*;
use vstd::string::*;

use crate::meta::{
    Diagnostic,
    ErrorKind,
    MetaItem,
    MetaVal,
    Rhs,
    attr_span,
    clone_expr,
    item_matches_meta,
    items_match_metas,
    meta_items,
    spec_attr_metas,
    spec_attr_span,
    spec_expr_ident,
    spec_expr_str_lit,
    spec_meta_key,
    spec_meta_span,
    spec_meta_val,
};
use crate::uuid::{Uuid, spec_parse_uuid, invalid_uuid_msg};

verus! {

/// The fixed set of supported property keys.
#[derive(Clone, Copy, PartialEq, Eq, Structural, Debug)]
pub enum PropKey {
    Uuid,
    Read,
    Write,
    WriteWithoutResponse,
    Notify,
    Indicate,
    InitialValue,
    OnWrite,
    OnRead,
    AppManaged,
}

/// Which supported key, if any, an identifier names.
pub open spec fn key_of(s: Seq<char>) -> Option<PropKey> {
    if s == "uuid"@ {
        Some(PropKey::Uuid)
    } else if s == "read"@ {
        Some(PropKey::Read)
    } else if s == "write"@ {
        Some(PropKey::Write)
    } else if s == "write_without_response"@ {
        Some(PropKey::WriteWithoutResponse)
    } else if s == "notify"@ {
        Some(PropKey::Notify)
    } else if s == "indicate"@ {
        Some(PropKey::Indicate)
    } else if s == "value"@ {
        Some(PropKey::InitialValue)
    } else if s == "on_write"@ {
        Some(PropKey::OnWrite)
    } else if s == "on_read"@ {
        Some(PropKey::OnRead)
    } else if s == "app_managed"@ {
        Some(PropKey::AppManaged)
    } else {
        None
    }
}

fn classify_key(k: &String) -> (r: Option<PropKey>)
    ensures
        r == key_of(k@),
{
    if *k == String::from_str("uuid") {
        Some(PropKey::Uuid)
    } else if *k == String::from_str("read") {
        Some(PropKey::Read)
    } else if *k == String::from_str("write") {
        Some(PropKey::Write)
    } else if *k == String::from_str("write_without_response") {
        Some(PropKey::WriteWithoutResponse)
    } else if *k == String::from_str("notify") {
        Some(PropKey::Notify)
    } else if *k == String::from_str("indicate") {
        Some(PropKey::Indicate)
    } else if *k == String::from_str("value") {
        Some(PropKey::InitialValue)
    } else if *k == String::from_str("on_write") {
        Some(PropKey::OnWrite)
    } else if *k == String::from_str("on_read") {
        Some(PropKey::OnRead)
    } else if *k == String::from_str("app_managed") {
        Some(PropKey::AppManaged)
    } else {
        None
    }
}

pub open spec fn msg_no_ident() -> Seq<char> {
    "no ident"@
}

pub open spec fn msg_uuid_needs_value() -> Seq<char> {
    "uuid must be followed by '= [data]'.  i.e. uuid = '0x2A37'"@
}

pub open spec fn msg_value_needs_value() -> Seq<char> {
    "value must be followed by '= [data]'.  i.e. value = 'hello'"@
}

pub open spec fn msg_on_write_needs_value() -> Seq<char> {
    "on_write must be followed by '= [callback]'. i.e. on_write = characterisic_on_write"@
}

pub open spec fn msg_on_read_needs_value() -> Seq<char> {
    "on_read must be followed by '= [callback]'. i.e. on_read = characteristic_on_read"@
}

pub open spec fn msg_expected_string_literal() -> Seq<char> {
    "expected string literal"@
}

pub open spec fn msg_expected_identifier() -> Seq<char> {
    "expected identifier"@
}

pub open spec fn msg_no_value_accepted() -> Seq<char> {
    "this property is set by its presence alone and takes no value"@
}

pub open spec fn msg_missing_uuid() -> Seq<char> {
    "Characteristic must have a UUID"@
}

pub open spec fn unsupported_msg(k: Seq<char>) -> Seq<char> {
    "Unsupported characteristic property: '"@ + k
        + "'.\nSupported properties are: uuid, read, write, write_without_response, notify, indicate, value, on_read, on_write, app_managed"@
}

fn unsupported_message(k: &String) -> (m: String)
    ensures
        m@ == unsupported_msg(k@),
{
    let mut m = String::from_str("Unsupported characteristic property: '");
    m.append(k.as_str());
    m.append(
        "'.\nSupported properties are: uuid, read, write, write_without_response, notify, indicate, value, on_read, on_write, app_managed",
    );
    m
}

/// The validated property set of one characteristic attribute.
pub struct CharacteristicArgs {
    /// Required overall; its absence is detected after the full item scan.
    pub uuid: Option<Uuid>,
    pub read: bool,
    pub write: bool,
    pub write_without_response: bool,
    pub notify: bool,
    pub indicate: bool,
    /// The initial-value expression, stored unevaluated.
    pub value: Option<syn::Expr>,
    /// The write-callback identifier, stored unresolved.
    pub on_write: Option<String>,
    /// The read-callback identifier, stored unresolved.
    pub on_read: Option<String>,
    pub app_managed: bool,
    /// Nested descriptor records, in insertion order. The characteristic
    /// grammar itself has no descriptor key, so parsing leaves this empty.
    pub descriptors: Vec<crate::descriptor::DescriptorArgs>,
}

impl Default for CharacteristicArgs {
    /// All flags false, all optionals empty, no descriptors.
    fn default() -> (a: CharacteristicArgs)
        ensures
            a.uuid is None,
            !a.read && !a.write && !a.write_without_response && !a.notify && !a.indicate
                && !a.app_managed,
            a.value is None,
            a.on_write is None,
            a.on_read is None,
            a.descriptors@.len() == 0,
    {
        CharacteristicArgs {
            uuid: None,
            read: false,
            write: false,
            write_without_response: false,
            notify: false,
            indicate: false,
            value: None,
            on_write: None,
            on_read: None,
            app_managed: false,
            descriptors: Vec::new(),
        }
    }
}

/// What one item does to the record, or the diagnostic it raises.
pub enum ItemCheck {
    SetFlag(PropKey),
    SetUuid(Uuid),
    SetValue(syn::Expr),
    SetOnWrite(String),
    SetOnRead(String),
    Fail(ErrorKind, Seq<char>),
}

/// The per-item grammar rule: how one item is interpreted.
pub open spec fn check_item(it: MetaItem) -> ItemCheck {
    match it.key {
        None => ItemCheck::Fail(ErrorKind::MalformedKey, msg_no_ident()),
        Some(k) => match key_of(k@) {
            None => ItemCheck::Fail(ErrorKind::UnsupportedKey, unsupported_msg(k@)),
            Some(PropKey::Uuid) => match it.rhs {
                Rhs::Valued(v) => match v.str_lit {
                    Some(s) => match spec_parse_uuid(s@) {
                        Some(u) => ItemCheck::SetUuid(u),
                        None => ItemCheck::Fail(ErrorKind::InvalidUuid, invalid_uuid_msg()),
                    },
                    None => ItemCheck::Fail(
                        ErrorKind::MalformedValue,
                        msg_expected_string_literal(),
                    ),
                },
                _ => ItemCheck::Fail(ErrorKind::MissingValue, msg_uuid_needs_value()),
            },
            Some(PropKey::InitialValue) => match it.rhs {
                Rhs::Valued(v) => ItemCheck::SetValue(v.expr),
                _ => ItemCheck::Fail(ErrorKind::MissingValue, msg_value_needs_value()),
            },
            Some(PropKey::OnWrite) => match it.rhs {
                Rhs::Valued(v) => match v.ident {
                    Some(id) => ItemCheck::SetOnWrite(id),
                    None => ItemCheck::Fail(ErrorKind::MalformedValue, msg_expected_identifier()),
                },
                _ => ItemCheck::Fail(ErrorKind::MissingValue, msg_on_write_needs_value()),
            },
            Some(PropKey::OnRead) => match it.rhs {
                Rhs::Valued(v) => match v.ident {
                    Some(id) => ItemCheck::SetOnRead(id),
                    None => ItemCheck::Fail(ErrorKind::MalformedValue, msg_expected_identifier()),
                },
                _ => ItemCheck::Fail(ErrorKind::MissingValue, msg_on_read_needs_value()),
            },
            Some(f) => match it.rhs {
                Rhs::Bare => ItemCheck::SetFlag(f),
                _ => ItemCheck::Fail(ErrorKind::MalformedValue, msg_no_value_accepted()),
            },
        },
    }
}

pub open spec fn item_fails(it: MetaItem) -> bool {
    check_item(it) is Fail
}

pub open spec fn no_item_fails(items: Seq<MetaItem>) -> bool {
    forall|i: int| 0 <= i < items.len() ==> !item_fails(#[trigger] items[i])
}

/// The record after setting one capability flag.
pub open spec fn set_flag(a: CharacteristicArgs, f: PropKey) -> CharacteristicArgs {
    match f {
        PropKey::Read => CharacteristicArgs { read: true, ..a },
        PropKey::Write => CharacteristicArgs { write: true, ..a },
        PropKey::WriteWithoutResponse => CharacteristicArgs { write_without_response: true, ..a },
        PropKey::Notify => CharacteristicArgs { notify: true, ..a },
        PropKey::Indicate => CharacteristicArgs { indicate: true, ..a },
        PropKey::AppManaged => CharacteristicArgs { app_managed: true, ..a },
        _ => a,
    }
}

pub open spec fn is_flag_item(it: MetaItem, f: PropKey) -> bool {
    check_item(it) == ItemCheck::SetFlag(f)
}

/// Whether some item is the bare key of flag `f`.
pub open spec fn has_flag(items: Seq<MetaItem>, f: PropKey) -> bool {
    exists|i: int| 0 <= i < items.len() && is_flag_item(#[trigger] items[i], f)
}

/// The UUID of the last uuid item, if any.
pub open spec fn last_uuid(items: Seq<MetaItem>) -> Option<Uuid>
    decreases items.len(),
{
    if items.len() == 0 {
        None
    } else {
        match check_item(items.last()) {
            ItemCheck::SetUuid(u) => Some(u),
            _ => last_uuid(items.drop_last()),
        }
    }
}

/// The expression of the last value item, if any.
pub open spec fn last_value(items: Seq<MetaItem>) -> Option<syn::Expr>
    decreases items.len(),
{
    if items.len() == 0 {
        None
    } else {
        match check_item(items.last()) {
            ItemCheck::SetValue(e) => Some(e),
            _ => last_value(items.drop_last()),
        }
    }
}

/// The identifier of the last on_write item, if any.
pub open spec fn last_on_write(items: Seq<MetaItem>) -> Option<String>
    decreases items.len(),
{
    if items.len() == 0 {
        None
    } else {
        match check_item(items.last()) {
            ItemCheck::SetOnWrite(n) => Some(n),
            _ => last_on_write(items.drop_last()),
        }
    }
}

/// The identifier of the last on_read item, if any.
pub open spec fn last_on_read(items: Seq<MetaItem>) -> Option<String>
    decreases items.len(),
{
    if items.len() == 0 {
        None
    } else {
        match check_item(items.last()) {
            ItemCheck::SetOnRead(n) => Some(n),
            _ => last_on_read(items.drop_last()),
        }
    }
}

/// How a record reflects an item list that was walked without error.
pub open spec fn args_match(items: Seq<MetaItem>, args: CharacteristicArgs) -> bool {
    &&& args.uuid == last_uuid(items)
    &&& args.read == has_flag(items, PropKey::Read)
    &&& args.write == has_flag(items, PropKey::Write)
    &&& args.write_without_response == has_flag(items, PropKey::WriteWithoutResponse)
    &&& args.notify == has_flag(items, PropKey::Notify)
    &&& args.indicate == has_flag(items, PropKey::Indicate)
    &&& args.app_managed == has_flag(items, PropKey::AppManaged)
    &&& args.value == last_value(items)
    &&& args.on_write == last_on_write(items)
    &&& args.on_read == last_on_read(items)
    &&& args.descriptors@.len() == 0
}

/// The diagnostic of the first failing item, and nothing before it failing.
pub open spec fn item_fail_at(items: Seq<MetaItem>, i: int, d: Diagnostic) -> bool {
    &&& item_fails(items[i])
    &&& (forall|j: int| 0 <= j < i ==> !item_fails(#[trigger] items[j]))
    &&& (check_item(items[i]) matches ItemCheck::Fail(k, m) && d.kind == k && d.message@ == m
        && d.span == items[i].span)
}

/// The whole contract of parsing one item list: success exactly on a clean
/// walk that saw a uuid item, the record then matching the list; otherwise
/// the first failing item's diagnostic, or the missing-UUID diagnostic on the
/// whole attribute.
pub open spec fn parse_result_spec(
    items: Seq<MetaItem>,
    attr_loc: proc_macro2::Span,
    r: Result<CharacteristicArgs, Diagnostic>,
) -> bool {
    &&& (r is Ok <==> (no_item_fails(items) && last_uuid(items) is Some))
    &&& match r {
        Ok(args) => args_match(items, args),
        Err(d) => {
            ||| (exists|i: int| 0 <= i < items.len() && #[trigger] item_fail_at(items, i, d))
            ||| (no_item_fails(items) && last_uuid(items) is None && d.kind
                == ErrorKind::MissingUuid && d.message@ == msg_missing_uuid() && d.span == attr_loc)
        },
    }
}

proof fn lemma_has_flag_push(s: Seq<MetaItem>, it: MetaItem, f: PropKey)
    ensures
        has_flag(s.push(it), f) == (has_flag(s, f) || check_item(it) == ItemCheck::SetFlag(f)),
{
    if has_flag(s, f) {
        let j = choose|j: int| 0 <= j < s.len() && is_flag_item(s[j], f);
        assert(s.push(it)[j] == s[j]);
    }
    if check_item(it) == ItemCheck::SetFlag(f) {
        assert(s.push(it)[s.len() as int] == it);
    }
    if has_flag(s.push(it), f) {
        let j = choose|j: int| 0 <= j < s.push(it).len() && is_flag_item(s.push(it)[j], f);
        if j < s.len() {
            assert(s[j] == s.push(it)[j]);
        } else {
            assert(s.push(it)[j] == it);
        }
    }
}

/// What one item does to the record, stated directly over the Meta it came
/// from, through the names of the trusted readers.
pub enum MetaCheck {
    SetFlag(PropKey),
    SetUuid(Uuid),
    SetValue(syn::Expr),
    SetOnWrite(Seq<char>),
    SetOnRead(Seq<char>),
    Fail(ErrorKind, Seq<char>),
}

/// The per-item grammar rule, restated over syn::Meta.
pub open spec fn check_meta(m: syn::Meta) -> MetaCheck {
    match spec_meta_key(m) {
        None => MetaCheck::Fail(ErrorKind::MalformedKey, msg_no_ident()),
        Some(k) => match key_of(k) {
            None => MetaCheck::Fail(ErrorKind::UnsupportedKey, unsupported_msg(k)),
            Some(PropKey::Uuid) => match spec_meta_val(m) {
                MetaVal::Value(e) => match spec_expr_str_lit(e) {
                    Some(s) => match spec_parse_uuid(s) {
                        Some(u) => MetaCheck::SetUuid(u),
                        None => MetaCheck::Fail(ErrorKind::InvalidUuid, invalid_uuid_msg()),
                    },
                    None => MetaCheck::Fail(
                        ErrorKind::MalformedValue,
                        msg_expected_string_literal(),
                    ),
                },
                _ => MetaCheck::Fail(ErrorKind::MissingValue, msg_uuid_needs_value()),
            },
            Some(PropKey::InitialValue) => match spec_meta_val(m) {
                MetaVal::Value(e) => MetaCheck::SetValue(e),
                _ => MetaCheck::Fail(ErrorKind::MissingValue, msg_value_needs_value()),
            },
            Some(PropKey::OnWrite) => match spec_meta_val(m) {
                MetaVal::Value(e) => match spec_expr_ident(e) {
                    Some(id) => MetaCheck::SetOnWrite(id),
                    None => MetaCheck::Fail(ErrorKind::MalformedValue, msg_expected_identifier()),
                },
                _ => MetaCheck::Fail(ErrorKind::MissingValue, msg_on_write_needs_value()),
            },
            Some(PropKey::OnRead) => match spec_meta_val(m) {
                MetaVal::Value(e) => match spec_expr_ident(e) {
                    Some(id) => MetaCheck::SetOnRead(id),
                    None => MetaCheck::Fail(ErrorKind::MalformedValue, msg_expected_identifier()),
                },
                _ => MetaCheck::Fail(ErrorKind::MissingValue, msg_on_read_needs_value()),
            },
            Some(f) => match spec_meta_val(m) {
                MetaVal::Bare => MetaCheck::SetFlag(f),
                _ => MetaCheck::Fail(ErrorKind::MalformedValue, msg_no_value_accepted()),
            },
        },
    }
}

/// The two readings of one item agree, up to the view of a stored string.
pub open spec fn check_corresponds(ci: ItemCheck, cm: MetaCheck) -> bool {
    match (ci, cm) {
        (ItemCheck::SetFlag(f), MetaCheck::SetFlag(g)) => f == g,
        (ItemCheck::SetUuid(u), MetaCheck::SetUuid(w)) => u == w,
        (ItemCheck::SetValue(e), MetaCheck::SetValue(e2)) => e == e2,
        (ItemCheck::SetOnWrite(n), MetaCheck::SetOnWrite(s)) => n@ == s,
        (ItemCheck::SetOnRead(n), MetaCheck::SetOnRead(s)) => n@ == s,
        (ItemCheck::Fail(k, m1), MetaCheck::Fail(k2, m2)) => k == k2 && m1 == m2,
        _ => false,
    }
}

proof fn lemma_check_corresponds(it: MetaItem, m: syn::Meta)
    requires
        item_matches_meta(it, m),
    ensures
        check_corresponds(check_item(it), check_meta(m)),
{
}

pub open spec fn meta_fails(m: syn::Meta) -> bool {
    check_meta(m) is Fail
}

pub open spec fn no_meta_fails(metas: Seq<syn::Meta>) -> bool {
    forall|i: int| 0 <= i < metas.len() ==> !meta_fails(#[trigger] metas[i])
}

pub open spec fn is_meta_flag(m: syn::Meta, f: PropKey) -> bool {
    check_meta(m) == MetaCheck::SetFlag(f)
}

/// Whether some Meta is the bare key of flag `f`.
pub open spec fn has_meta_flag(metas: Seq<syn::Meta>, f: PropKey) -> bool {
    exists|i: int| 0 <= i < metas.len() && is_meta_flag(#[trigger] metas[i], f)
}

/// The UUID of the last uuid Meta, if any.
pub open spec fn meta_last_uuid(metas: Seq<syn::Meta>) -> Option<Uuid>
    decreases metas.len(),
{
    if metas.len() == 0 {
        None
    } else {
        match check_meta(metas.last()) {
            MetaCheck::SetUuid(u) => Some(u),
            _ => meta_last_uuid(metas.drop_last()),
        }
    }
}

/// The expression of the last value Meta, if any.
pub open spec fn meta_last_value(metas: Seq<syn::Meta>) -> Option<syn::Expr>
    decreases metas.len(),
{
    if metas.len() == 0 {
        None
    } else {
        match check_meta(metas.last()) {
            MetaCheck::SetValue(e) => Some(e),
            _ => meta_last_value(metas.drop_last()),
        }
    }
}

/// The identifier of the last on_write Meta, if any.
pub open spec fn meta_last_on_write(metas: Seq<syn::Meta>) -> Option<Seq<char>>
    decreases metas.len(),
{
    if metas.len() == 0 {
        None
    } else {
        match check_meta(metas.last()) {
            MetaCheck::SetOnWrite(s) => Some(s),
            _ => meta_last_on_write(metas.drop_last()),
        }
    }
}

/// The identifier of the last on_read Meta, if any.
pub open spec fn meta_last_on_read(metas: Seq<syn::Meta>) -> Option<Seq<char>>
    decreases metas.len(),
{
    if metas.len() == 0 {
        None
    } else {
        match check_meta(metas.last()) {
            MetaCheck::SetOnRead(s) => Some(s),
            _ => meta_last_on_read(metas.drop_last()),
        }
    }
}

pub open spec fn view_opt(o: Option<String>) -> Option<Seq<char>> {
    match o {
        Some(s) => Some(s@),
        None => None,
    }
}

/// How a record reflects a Meta list that was walked without error.
pub open spec fn meta_args_match(metas: Seq<syn::Meta>, args: CharacteristicArgs) -> bool {
    &&& args.uuid == meta_last_uuid(metas)
    &&& args.read == has_meta_flag(metas, PropKey::Read)
    &&& args.write == has_meta_flag(metas, PropKey::Write)
    &&& args.write_without_response == has_meta_flag(metas, PropKey::WriteWithoutResponse)
    &&& args.notify == has_meta_flag(metas, PropKey::Notify)
    &&& args.indicate == has_meta_flag(metas, PropKey::Indicate)
    &&& args.app_managed == has_meta_flag(metas, PropKey::AppManaged)
    &&& args.value == meta_last_value(metas)
    &&& view_opt(args.on_write) == meta_last_on_write(metas)
    &&& view_opt(args.on_read) == meta_last_on_read(metas)
    &&& args.descriptors@.len() == 0
}

/// The diagnostic of the first failing Meta, and nothing before it failing.
pub open spec fn meta_fail_at(metas: Seq<syn::Meta>, i: int, d: Diagnostic) -> bool {
    &&& meta_fails(metas[i])
    &&& (forall|j: int| 0 <= j < i ==> !meta_fails(#[trigger] metas[j]))
    &&& (check_meta(metas[i]) matches MetaCheck::Fail(k, m) && d.kind == k && d.message@ == m
        && d.span == spec_meta_span(metas[i]))
}

/// The whole contract of parsing one attribute, over its named Meta list.
pub open spec fn parse_result_spec_metas(
    metas: Seq<syn::Meta>,
    attr_loc: proc_macro2::Span,
    r: Result<CharacteristicArgs, Diagnostic>,
) -> bool {
    &&& (r is Ok <==> (no_meta_fails(metas) && meta_last_uuid(metas) is Some))
    &&& match r {
        Ok(args) => meta_args_match(metas, args),
        Err(d) => {
            ||| (exists|i: int| 0 <= i < metas.len() && #[trigger] meta_fail_at(metas, i, d))
            ||| (no_meta_fails(metas) && meta_last_uuid(metas) is None && d.kind
                == ErrorKind::MissingUuid && d.message@ == msg_missing_uuid() && d.span == attr_loc)
        },
    }
}

proof fn lemma_matching_drop_last(items: Seq<MetaItem>, metas: Seq<syn::Meta>)
    requires
        items_match_metas(items, metas),
        metas.len() > 0,
    ensures
        items_match_metas(items.drop_last(), metas.drop_last()),
        item_matches_meta(items.last(), metas.last()),
{
    assert forall|j: int|
        0 <= j < metas.drop_last().len() implies item_matches_meta(
        #[trigger] items.drop_last()[j],
        metas.drop_last()[j],
    ) by {
        assert(items.drop_last()[j] == items[j]);
        assert(metas.drop_last()[j] == metas[j]);
    }
}

proof fn lemma_bridge_lasts(items: Seq<MetaItem>, metas: Seq<syn::Meta>)
    requires
        items_match_metas(items, metas),
    ensures
        meta_last_uuid(metas) == last_uuid(items),
        meta_last_value(metas) == last_value(items),
        meta_last_on_write(metas) == view_opt(last_on_write(items)),
        meta_last_on_read(metas) == view_opt(last_on_read(items)),
    decreases metas.len(),
{
    if metas.len() > 0 {
        lemma_matching_drop_last(items, metas);
        lemma_check_corresponds(items.last(), metas.last());
        lemma_bridge_lasts(items.drop_last(), metas.drop_last());
    }
}

proof fn lemma_bridge_flag(items: Seq<MetaItem>, metas: Seq<syn::Meta>, f: PropKey)
    requires
        items_match_metas(items, metas),
    ensures
        has_meta_flag(metas, f) == has_flag(items, f),
{
    if has_flag(items, f) {
        let i = choose|i: int| 0 <= i < items.len() && is_flag_item(#[trigger] items[i], f);
        lemma_check_corresponds(items[i], metas[i]);
        assert(is_meta_flag(metas[i], f));
    }
    if has_meta_flag(metas, f) {
        let i = choose|i: int| 0 <= i < metas.len() && is_meta_flag(#[trigger] metas[i], f);
        lemma_check_corresponds(items[i], metas[i]);
        assert(is_flag_item(items[i], f));
    }
}

/// Carries the exact item-level parse outcome over to the Meta list the
/// items were read from.
proof fn lemma_parse_metas_bridge(
    items: Seq<MetaItem>,
    metas: Seq<syn::Meta>,
    attr_loc: proc_macro2::Span,
    r: Result<CharacteristicArgs, Diagnostic>,
)
    requires
        items_match_metas(items, metas),
        parse_result_spec(items, attr_loc, r),
    ensures
        parse_result_spec_metas(metas, attr_loc, r),
{
    lemma_bridge_lasts(items, metas);
    lemma_bridge_flag(items, metas, PropKey::Read);
    lemma_bridge_flag(items, metas, PropKey::Write);
    lemma_bridge_flag(items, metas, PropKey::WriteWithoutResponse);
    lemma_bridge_flag(items, metas, PropKey::Notify);
    lemma_bridge_flag(items, metas, PropKey::Indicate);
    lemma_bridge_flag(items, metas, PropKey::AppManaged);
    assert forall|i: int|
        0 <= i < metas.len() implies meta_fails(#[trigger] metas[i]) == item_fails(items[i]) by {
        lemma_check_corresponds(items[i], metas[i]);
    }
    if no_item_fails(items) {
        assert forall|i: int| 0 <= i < metas.len() implies !meta_fails(#[trigger] metas[i]) by {
            assert(!item_fails(items[i]));
        }
    }
    if no_meta_fails(metas) {
        assert forall|i: int| 0 <= i < items.len() implies !item_fails(#[trigger] items[i]) by {
            assert(!meta_fails(metas[i]));
        }
    }
    match r {
        Ok(_) => {},
        Err(d) => {
            if exists|i: int| 0 <= i < items.len() && #[trigger] item_fail_at(items, i, d) {
                let i = choose|i: int| 0 <= i < items.len() && #[trigger] item_fail_at(
                    items,
                    i,
                    d,
                );
                lemma_check_corresponds(items[i], metas[i]);
                assert forall|j: int| 0 <= j < i implies !meta_fails(#[trigger] metas[j]) by {
                    assert(!item_fails(items[j]));
                }
                assert(meta_fail_at(metas, i, d));
            }
        },
    }
}

impl CharacteristicArgs {
    /// Applies one item to the record, or reports why it is invalid.
    fn apply_item(&mut self, it: &MetaItem) -> (r: Result<(), Diagnostic>)
        ensures
            ({
                let c = check_item(*it);
                match c {
                    ItemCheck::SetFlag(f) => r is Ok && *final(self) == set_flag(*old(self), f),
                    ItemCheck::SetUuid(u) => r is Ok && *final(self) == (CharacteristicArgs {
                        uuid: Some(u),
                        ..*old(self)
                    }),
                    ItemCheck::SetValue(e) => r is Ok && *final(self) == (CharacteristicArgs {
                        value: Some(e),
                        ..*old(self)
                    }),
                    ItemCheck::SetOnWrite(n) => r is Ok && *final(self) == (CharacteristicArgs {
                        on_write: Some(n),
                        ..*old(self)
                    }),
                    ItemCheck::SetOnRead(n) => r is Ok && *final(self) == (CharacteristicArgs {
                        on_read: Some(n),
                        ..*old(self)
                    }),
                    ItemCheck::Fail(k, m) => (r matches Err(d) && d.kind == k && d.message@ == m
                        && d.span == it.span) && *final(self) == *old(self),
                }
            }),
    {
        match &it.key {
            None => Err(
                Diagnostic {
                    kind: ErrorKind::MalformedKey,
                    message: String::from_str("no ident"),
                    span: it.span,
                },
            ),
            Some(k) => match classify_key(k) {
                None => Err(
                    Diagnostic {
                        kind: ErrorKind::UnsupportedKey,
                        message: unsupported_message(k),
                        span: it.span,
                    },
                ),
                Some(PropKey::Uuid) => match &it.rhs {
                    Rhs::Valued(v) => match &v.str_lit {
                        Some(s) => match Uuid::from_string(s.as_str()) {
                            Ok(u) => {
                                self.uuid = Some(u);
                                Ok(())
                            },
                            Err(m) => Err(
                                Diagnostic {
                                    kind: ErrorKind::InvalidUuid,
                                    message: m,
                                    span: it.span,
                                },
                            ),
                        },
                        None => Err(
                            Diagnostic {
                                kind: ErrorKind::MalformedValue,
                                message: String::from_str("expected string literal"),
                                span: it.span,
                            },
                        ),
                    },
                    _ => Err(
                        Diagnostic {
                            kind: ErrorKind::MissingValue,
                            message: String::from_str(
                                "uuid must be followed by '= [data]'.  i.e. uuid = '0x2A37'",
                            ),
                            span: it.span,
                        },
                    ),
                },
                Some(PropKey::InitialValue) => match &it.rhs {
                    Rhs::Valued(v) => {
                        self.value = Some(clone_expr(&v.expr));
                        Ok(())
                    },
                    _ => Err(
                        Diagnostic {
                            kind: ErrorKind::MissingValue,
                            message: String::from_str(
                                "value must be followed by '= [data]'.  i.e. value = 'hello'",
                            ),
                            span: it.span,
                        },
                    ),
                },
                Some(PropKey::OnWrite) => match &it.rhs {
                    Rhs::Valued(v) => match &v.ident {
                        Some(id) => {
                            self.on_write = Some(id.clone());
                            Ok(())
                        },
                        None => Err(
                            Diagnostic {
                                kind: ErrorKind::MalformedValue,
                                message: String::from_str("expected identifier"),
                                span: it.span,
                            },
                        ),
                    },
                    _ => Err(
                        Diagnostic {
                            kind: ErrorKind::MissingValue,
                            message: String::from_str(
                                "on_write must be followed by '= [callback]'. i.e. on_write = characterisic_on_write",
                            ),
                            span: it.span,
                        },
                    ),
                },
                Some(PropKey::OnRead) => match &it.rhs {
                    Rhs::Valued(v) => match &v.ident {
                        Some(id) => {
                            self.on_read = Some(id.clone());
                            Ok(())
                        },
                        None => Err(
                            Diagnostic {
                                kind: ErrorKind::MalformedValue,
                                message: String::from_str("expected identifier"),
                                span: it.span,
                            },
                        ),
                    },
                    _ => Err(
                        Diagnostic {
                            kind: ErrorKind::MissingValue,
                            message: String::from_str(
                                "on_read must be followed by '= [callback]'. i.e. on_read = characteristic_on_read",
                            ),
                            span: it.span,
                        },
                    ),
                },
                Some(f) => match &it.rhs {
                    Rhs::Bare => {
                        match f {
                            PropKey::Read => {
                                self.read = true;
                            },
                            PropKey::Write => {
                                self.write = true;
                            },
                            PropKey::WriteWithoutResponse => {
                                self.write_without_response = true;
                            },
                            PropKey::Notify => {
                                self.notify = true;
                            },
                            PropKey::Indicate => {
                                self.indicate = true;
                            },
                            PropKey::AppManaged => {
                                self.app_managed = true;
                            },
                            _ => {},
                        }
                        Ok(())
                    },
                    _ => Err(
                        Diagnostic {
                            kind: ErrorKind::MalformedValue,
                            message: String::from_str(
                                "this property is set by its presence alone and takes no value",
                            ),
                            span: it.span,
                        },
                    ),
                },
            },
        }
    }

    /// Walks one item list, left to right and fail-fast, then enforces the
    /// UUID-presence rule.
    pub fn parse_items(items: &Vec<MetaItem>, attr_loc: proc_macro2::Span) -> (r: Result<
        CharacteristicArgs,
        Diagnostic,
    >)
        ensures
            parse_result_spec(items@, attr_loc, r),
    {
        let mut args = CharacteristicArgs::default();
        proof {
            assert(items@.subrange(0, 0) =~= Seq::<MetaItem>::empty());
        }
        let mut i: usize = 0;
        while i < items.len()
            invariant
                0 <= i <= items@.len(),
                forall|j: int| 0 <= j < i ==> !item_fails(#[trigger] items@[j]),
                args_match(items@.subrange(0, i as int), args),
            decreases items@.len() - i,
        {
            let ghost p0 = items@.subrange(0, i as int);
            let ghost it = items@[i as int];
            let res = args.apply_item(&items[i]);
            proof {
                let p1 = items@.subrange(0, i + 1 as int);
                assert(p1 =~= p0.push(it));
                assert(p1.drop_last() =~= p0);
                lemma_has_flag_push(p0, it, PropKey::Read);
                lemma_has_flag_push(p0, it, PropKey::Write);
                lemma_has_flag_push(p0, it, PropKey::WriteWithoutResponse);
                lemma_has_flag_push(p0, it, PropKey::Notify);
                lemma_has_flag_push(p0, it, PropKey::Indicate);
                lemma_has_flag_push(p0, it, PropKey::AppManaged);
            }
            match res {
                Ok(()) => {},
                Err(d) => {
                    proof {
                        assert(item_fail_at(items@, i as int, d));
                    }
                    return Err(d);
                },
            }
            i += 1;
        }
        proof {
            assert(items@.subrange(0, items@.len() as int) =~= items@);
        }
        if args.uuid.is_none() {
            return Err(
                Diagnostic {
                    kind: ErrorKind::MissingUuid,
                    message: String::from_str("Characteristic must have a UUID"),
                    span: attr_loc,
                },
            );
        }
        Ok(args)
    }

    /// Parse the arguments of a characteristic attribute.
    ///
    /// The attribute's named Meta list decides the outcome: a token-level
    /// syntax error comes back as-is; otherwise the grammar contract holds
    /// over that list, so success is owed exactly when every named item is
    /// well-formed and one of them supplies a UUID.
    pub fn parse(attribute: &syn::Attribute) -> (r: Result<CharacteristicArgs, Diagnostic>)
        ensures
            match spec_attr_metas(*attribute) {
                Ok(metas) => parse_result_spec_metas(metas, spec_attr_span(*attribute), r),
                Err(e) => r matches Err(d) && d.kind == ErrorKind::MalformedValue && d.message@
                    == e.0 && d.span == e.1,
            },
    {
        let loc = attr_span(attribute);
        match meta_items(attribute) {
            Ok(items) => {
                let r = Self::parse_items(&items, loc);
                proof {
                    if let Ok(metas) = spec_attr_metas(*attribute) {
                        lemma_parse_metas_bridge(items@, metas, loc, r);
                    }
                }
                r
            },
            Err(d) => Err(d),
        }
    }
}

/// The annotated field's metadata, as plain values: its name (when the field
/// is named), and its declared type, type location and visibility, carried
/// through uninterpreted.
pub struct FieldInfo {
    pub name: Option<String>,
    pub ty: syn::Type,
    pub span: proc_macro2::Span,
    pub vis: syn::Visibility,
}

/// The field's identifier rendered to text, when the field is named.
pub uninterp spec fn spec_field_name(f: syn::Field) -> Option<Seq<char>>;

/// The field's declared type.
pub uninterp spec fn spec_field_ty(f: syn::Field) -> syn::Type;

/// The source location of the field's type.
pub uninterp spec fn spec_field_span(f: syn::Field) -> proc_macro2::Span;

/// The field's declared visibility.
pub uninterp spec fn spec_field_vis(f: syn::Field) -> syn::Visibility;

impl FieldInfo {
    /// Relies on syn::Field's accessors: the field's identifier rendered to
    /// text, and its type, type location and visibility cloned. Each piece
    /// depends on the field alone and carries its name above; a rendered
    /// syn::Ident is never the empty string, since syn accepts no empty
    /// identifier.
    #[verifier::external_body]
    fn from_field(field: &syn::Field) -> (r: FieldInfo)
        ensures
            (match r.name {
                Some(n) => spec_field_name(*field) == Some(n@) && n@.len() > 0,
                None => spec_field_name(*field) is None,
            }),
            r.ty == spec_field_ty(*field),
            r.span == spec_field_span(*field),
            r.vis == spec_field_vis(*field),
    {
        FieldInfo {
            name: field.ident.as_ref().map(|i| i.to_string()),
            ty: field.ty.clone(),
            span: syn::spanned::Spanned::span(&field.ty),
            vis: field.vis.clone(),
        }
    }
}

/// The final descriptor for one annotated field: a validated argument record
/// bound to the field's name, declared type, location and visibility.
pub struct Characteristic {
    pub name: String,
    pub ty: syn::Type,
    pub args: CharacteristicArgs,
    pub span: proc_macro2::Span,
    pub vis: syn::Visibility,
}

impl Characteristic {
    /// Binds an already-validated argument record to the field's metadata.
    /// Total: the one precondition is that the field carries a name — a
    /// non-empty one, as every rendered identifier is — which the caller
    /// owes because only named struct fields are legal input. The record
    /// passes through unchanged.
    pub fn new(field: FieldInfo, args: CharacteristicArgs) -> (c: Characteristic)
        requires
            field.name matches Some(n) && n@.len() > 0,
        ensures
            field.name matches Some(n) && c.name == n,
            c.name@.len() > 0,
            c.ty == field.ty,
            c.args == args,
            c.span == field.span,
            c.vis == field.vis,
    {
        match field.name {
            Some(n) => Characteristic {
                name: n,
                ty: field.ty,
                args,
                span: field.span,
                vis: field.vis,
            },
            None => vstd::pervasive::unreached(),
        }
    }

    /// Binds parsed arguments to a struct field read straight from syntax:
    /// the binding succeeds exactly when the field is named, and then holds
    /// the field's non-empty name, its type, type location and visibility,
    /// and the argument record passed through unchanged.
    pub fn from_syn_field(field: &syn::Field, args: CharacteristicArgs) -> (r: Option<
        Characteristic,
    >)
        ensures
            r is Some <==> spec_field_name(*field) is Some,
            r matches Some(c) ==> c.args == args && spec_field_name(*field) == Some(c.name@)
                && c.name@.len() > 0 && c.ty == spec_field_ty(*field) && c.span == spec_field_span(
                *field,
            ) && c.vis == spec_field_vis(*field),
    {
        let info = FieldInfo::from_field(field);
        if info.name.is_some() {
            Some(Characteristic::new(info, args))
        } else {
            None
        }
    }
}

} // verus!

