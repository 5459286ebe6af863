//! Laws of the characteristic grammar, stated over the parse contract and
//! proved once for every item list.
//!
//! Each law takes a parse result `r` about which `parse_result_spec` holds —
//! what `CharacteristicArgs::parse_items` ensures of its result — and pins
//! down the outcome under the law's hypothesis.

use vstd::prelude::*;

use crate::meta::{Diagnostic, ErrorKind, MetaItem, Rhs};
use crate::characteristic::{
    CharacteristicArgs,
    ItemCheck,
    PropKey,
    check_item,
    has_flag,
    item_fail_at,
    item_fails,
    key_of,
    last_on_read,
    last_on_write,
    last_uuid,
    last_value,
    msg_missing_uuid,
    no_item_fails,
    parse_result_spec,
    unsupported_msg,
};
use crate::uuid::{Uuid, spec_parse_uuid};

verus! {

/// Whether `needle` occurs somewhere in `hay`.
pub open spec fn contains_seq(hay: Seq<char>, needle: Seq<char>) -> bool {
    exists|o: int|
        0 <= o && o + needle.len() <= hay.len() && #[trigger] hay.subrange(o, o + needle.len())
            == needle
}

proof fn lemma_last_uuid_none(items: Seq<MetaItem>)
    requires
        forall|i: int| 0 <= i < items.len() ==> !(check_item(#[trigger] items[i]) is SetUuid),
    ensures
        last_uuid(items) is None,
    decreases items.len(),
{
    if items.len() > 0 {
        assert(!(check_item(items.last()) is SetUuid));
        assert forall|i: int|
            0 <= i < items.drop_last().len() implies !(check_item(
            #[trigger] items.drop_last()[i],
        ) is SetUuid) by {
            assert(items.drop_last()[i] == items[i]);
        }
        lemma_last_uuid_none(items.drop_last());
    }
}

proof fn lemma_last_uuid_some(items: Seq<MetaItem>)
    requires
        exists|i: int| 0 <= i < items.len() && (#[trigger] check_item(items[i])) is SetUuid,
    ensures
        last_uuid(items) is Some,
    decreases items.len(),
{
    let i = choose|i: int| 0 <= i < items.len() && (#[trigger] check_item(items[i])) is SetUuid;
    if !(check_item(items.last()) is SetUuid) {
        assert(i < items.len() - 1);
        assert(items.drop_last()[i] == items[i]);
        lemma_last_uuid_some(items.drop_last());
    }
}

proof fn lemma_last_uuid_at(items: Seq<MetaItem>, i: int, u: Uuid)
    requires
        0 <= i < items.len(),
        check_item(items[i]) == ItemCheck::SetUuid(u),
        forall|j: int| i < j < items.len() ==> !(check_item(#[trigger] items[j]) is SetUuid),
    ensures
        last_uuid(items) == Some(u),
    decreases items.len(),
{
    if i == items.len() - 1 {
        assert(items.last() == items[i]);
    } else {
        assert(!(check_item(items.last()) is SetUuid));
        assert(items.drop_last()[i] == items[i]);
        assert forall|j: int|
            i < j < items.drop_last().len() implies !(check_item(
            #[trigger] items.drop_last()[j],
        ) is SetUuid) by {
            assert(items.drop_last()[j] == items[j]);
        }
        lemma_last_uuid_at(items.drop_last(), i, u);
    }
}

proof fn lemma_last_on_write_at(items: Seq<MetaItem>, i: int, n: String)
    requires
        0 <= i < items.len(),
        check_item(items[i]) == ItemCheck::SetOnWrite(n),
        forall|j: int| i < j < items.len() ==> !(check_item(#[trigger] items[j]) is SetOnWrite),
    ensures
        last_on_write(items) == Some(n),
    decreases items.len(),
{
    if i == items.len() - 1 {
        assert(items.last() == items[i]);
    } else {
        assert(!(check_item(items.last()) is SetOnWrite));
        assert(items.drop_last()[i] == items[i]);
        assert forall|j: int|
            i < j < items.drop_last().len() implies !(check_item(
            #[trigger] items.drop_last()[j],
        ) is SetOnWrite) by {
            assert(items.drop_last()[j] == items[j]);
        }
        lemma_last_on_write_at(items.drop_last(), i, n);
    }
}

proof fn lemma_last_value_at(items: Seq<MetaItem>, i: int, e: syn::Expr)
    requires
        0 <= i < items.len(),
        check_item(items[i]) == ItemCheck::SetValue(e),
        forall|j: int| i < j < items.len() ==> !(check_item(#[trigger] items[j]) is SetValue),
    ensures
        last_value(items) == Some(e),
    decreases items.len(),
{
    if i == items.len() - 1 {
        assert(items.last() == items[i]);
    } else {
        assert(!(check_item(items.last()) is SetValue));
        assert(items.drop_last()[i] == items[i]);
        assert forall|j: int|
            i < j < items.drop_last().len() implies !(check_item(
            #[trigger] items.drop_last()[j],
        ) is SetValue) by {
            assert(items.drop_last()[j] == items[j]);
        }
        lemma_last_value_at(items.drop_last(), i, e);
    }
}

proof fn lemma_last_on_read_at(items: Seq<MetaItem>, i: int, n: String)
    requires
        0 <= i < items.len(),
        check_item(items[i]) == ItemCheck::SetOnRead(n),
        forall|j: int| i < j < items.len() ==> !(check_item(#[trigger] items[j]) is SetOnRead),
    ensures
        last_on_read(items) == Some(n),
    decreases items.len(),
{
    if i == items.len() - 1 {
        assert(items.last() == items[i]);
    } else {
        assert(!(check_item(items.last()) is SetOnRead));
        assert(items.drop_last()[i] == items[i]);
        assert forall|j: int|
            i < j < items.drop_last().len() implies !(check_item(
            #[trigger] items.drop_last()[j],
        ) is SetOnRead) by {
            assert(items.drop_last()[j] == items[j]);
        }
        lemma_last_on_read_at(items.drop_last(), i, n);
    }
}

/// The first failing item is the one whose diagnostic comes out.
proof fn lemma_first_failure(
    items: Seq<MetaItem>,
    attr_loc: proc_macro2::Span,
    r: Result<CharacteristicArgs, Diagnostic>,
    i: int,
)
    requires
        parse_result_spec(items, attr_loc, r),
        0 <= i < items.len(),
        item_fails(items[i]),
        forall|j: int| 0 <= j < i ==> !item_fails(#[trigger] items[j]),
    ensures
        r matches Err(d) && item_fail_at(items, i, d),
{
    assert(!no_item_fails(items));
    match r {
        Ok(_) => {
            assert(false);
        },
        Err(d) => {
            let j = choose|j: int| 0 <= j < items.len() && #[trigger] item_fail_at(items, j, d);
            if j < i {
                assert(item_fails(items[j]));
                assert(false);
            }
            if j > i {
                assert(!item_fails(items[i]));
                assert(false);
            }
        },
    }
}

/// Required-field law: when every item is well-formed but none supplies a
/// UUID, parsing fails with the missing-UUID diagnostic on the whole
/// attribute, whichever other keys are present or absent.
pub proof fn lemma_required_field(
    items: Seq<MetaItem>,
    attr_loc: proc_macro2::Span,
    r: Result<CharacteristicArgs, Diagnostic>,
)
    requires
        parse_result_spec(items, attr_loc, r),
        no_item_fails(items),
        forall|i: int| 0 <= i < items.len() ==> !(check_item(#[trigger] items[i]) is SetUuid),
    ensures
        r matches Err(d) && d.kind == ErrorKind::MissingUuid && d.message@ == msg_missing_uuid()
            && d.span == attr_loc,
{
    lemma_last_uuid_none(items);
    match r {
        Ok(_) => {
            assert(false);
        },
        Err(d) => {
            if exists|i: int| 0 <= i < items.len() && #[trigger] item_fail_at(items, i, d) {
                let i = choose|i: int| 0 <= i < items.len() && #[trigger] item_fail_at(
                    items,
                    i,
                    d,
                );
                assert(item_fails(items[i]));
                assert(false);
            }
        },
    }
}

proof fn lemma_concat_contains(a: Seq<char>, k: Seq<char>, b: Seq<char>, off: int, n: Seq<char>)
    requires
        0 <= off,
        off + n.len() <= b.len(),
        b.subrange(off, off + n.len()) == n,
    ensures
        contains_seq(a + k + b, n),
{
    let m = a + k + b;
    let o = a.len() + k.len() + off;
    assert forall|t: int| 0 <= t < n.len() implies m[o + t] == n[t] by {
        assert(m[o + t] == b[off + t]);
        assert(b.subrange(off, off + n.len())[t] == b[off + t]);
    }
    assert(m.subrange(o, o + n.len()) =~= n);
    assert(0 <= o && o + n.len() <= m.len() && m.subrange(o, o + n.len()) == n);
}

/// The unsupported-key message names every one of the supported keys,
/// whatever the rejected key was.
#[verifier::rlimit(50)]
proof fn lemma_unsupported_contains(k: Seq<char>)
    ensures
        contains_seq(unsupported_msg(k), "uuid"@),
        contains_seq(unsupported_msg(k), "read"@),
        contains_seq(unsupported_msg(k), "write"@),
        contains_seq(unsupported_msg(k), "write_without_response"@),
        contains_seq(unsupported_msg(k), "notify"@),
        contains_seq(unsupported_msg(k), "indicate"@),
        contains_seq(unsupported_msg(k), "value"@),
        contains_seq(unsupported_msg(k), "on_read"@),
        contains_seq(unsupported_msg(k), "on_write"@),
        contains_seq(unsupported_msg(k), "app_managed"@),
{
    let pre = "Unsupported characteristic property: '"@;
    let post =
        "'.\nSupported properties are: uuid, read, write, write_without_response, notify, indicate, value, on_read, on_write, app_managed"@;
    reveal_strlit("Unsupported characteristic property: '");
    reveal_strlit(
        "'.\nSupported properties are: uuid, read, write, write_without_response, notify, indicate, value, on_read, on_write, app_managed",
    );
    reveal_strlit("uuid");
    reveal_strlit("read");
    reveal_strlit("write");
    reveal_strlit("write_without_response");
    reveal_strlit("notify");
    reveal_strlit("indicate");
    reveal_strlit("value");
    reveal_strlit("on_read");
    reveal_strlit("on_write");
    reveal_strlit("app_managed");
    assert(unsupported_msg(k) == pre + k + post);
    assert(post.subrange(29, 33) =~= "uuid"@);
    lemma_concat_contains(pre, k, post, 29, "uuid"@);
    assert(post.subrange(35, 39) =~= "read"@);
    lemma_concat_contains(pre, k, post, 35, "read"@);
    assert(post.subrange(41, 46) =~= "write"@);
    lemma_concat_contains(pre, k, post, 41, "write"@);
    assert(post.subrange(48, 70) =~= "write_without_response"@);
    lemma_concat_contains(pre, k, post, 48, "write_without_response"@);
    assert(post.subrange(72, 78) =~= "notify"@);
    lemma_concat_contains(pre, k, post, 72, "notify"@);
    assert(post.subrange(80, 88) =~= "indicate"@);
    lemma_concat_contains(pre, k, post, 80, "indicate"@);
    assert(post.subrange(90, 95) =~= "value"@);
    lemma_concat_contains(pre, k, post, 90, "value"@);
    assert(post.subrange(97, 104) =~= "on_read"@);
    lemma_concat_contains(pre, k, post, 97, "on_read"@);
    assert(post.subrange(106, 114) =~= "on_write"@);
    lemma_concat_contains(pre, k, post, 106, "on_write"@);
    assert(post.subrange(116, 127) =~= "app_managed"@);
    lemma_concat_contains(pre, k, post, 116, "app_managed"@);
}

/// Unknown-key law: an identifier key outside the supported set is rejected
/// at its item, with a message that names every supported key.
pub proof fn lemma_unknown_key_rejected(
    items: Seq<MetaItem>,
    attr_loc: proc_macro2::Span,
    r: Result<CharacteristicArgs, Diagnostic>,
    i: int,
)
    requires
        parse_result_spec(items, attr_loc, r),
        0 <= i < items.len(),
        forall|j: int| 0 <= j < i ==> !item_fails(#[trigger] items[j]),
        items[i].key matches Some(k) && key_of(k@) is None,
    ensures
        r matches Err(d) && d.kind == ErrorKind::UnsupportedKey && d.span == items[i].span,
        r matches Err(d) && (items[i].key matches Some(k) && d.message@ == unsupported_msg(k@)),
        r matches Err(d) && contains_seq(d.message@, "uuid"@),
        r matches Err(d) && contains_seq(d.message@, "read"@),
        r matches Err(d) && contains_seq(d.message@, "write"@),
        r matches Err(d) && contains_seq(d.message@, "write_without_response"@),
        r matches Err(d) && contains_seq(d.message@, "notify"@),
        r matches Err(d) && contains_seq(d.message@, "indicate"@),
        r matches Err(d) && contains_seq(d.message@, "value"@),
        r matches Err(d) && contains_seq(d.message@, "on_read"@),
        r matches Err(d) && contains_seq(d.message@, "on_write"@),
        r matches Err(d) && contains_seq(d.message@, "app_managed"@),
{
    match items[i].key {
        Some(k) => {
            assert(check_item(items[i]) == ItemCheck::Fail(
                ErrorKind::UnsupportedKey,
                unsupported_msg(k@),
            ));
            lemma_first_failure(items, attr_loc, r, i);
            lemma_unsupported_contains(k@);
        },
        None => {
            assert(false);
        },
    }
}

/// Flag-independence law: with every item well-formed and a uuid item
/// present, parsing succeeds and each capability flag is set exactly when
/// its bare key occurs — the flag set is exactly the subset supplied.
pub proof fn lemma_flag_independence(
    items: Seq<MetaItem>,
    attr_loc: proc_macro2::Span,
    r: Result<CharacteristicArgs, Diagnostic>,
)
    requires
        parse_result_spec(items, attr_loc, r),
        no_item_fails(items),
        exists|i: int| 0 <= i < items.len() && (#[trigger] check_item(items[i])) is SetUuid,
    ensures
        r matches Ok(args) && args.read == has_flag(items, PropKey::Read),
        r matches Ok(args) && args.write == has_flag(items, PropKey::Write),
        r matches Ok(args) && args.write_without_response == has_flag(
            items,
            PropKey::WriteWithoutResponse,
        ),
        r matches Ok(args) && args.notify == has_flag(items, PropKey::Notify),
        r matches Ok(args) && args.indicate == has_flag(items, PropKey::Indicate),
        r matches Ok(args) && args.app_managed == has_flag(items, PropKey::AppManaged),
{
    lemma_last_uuid_some(items);
}

/// UUID round-trip law: when the last uuid item carries a string the UUID
/// parser accepts, a successful parse stores exactly the UUID that parser
/// yields for that same string in isolation.
pub proof fn lemma_uuid_round_trip(
    items: Seq<MetaItem>,
    attr_loc: proc_macro2::Span,
    r: Result<CharacteristicArgs, Diagnostic>,
    i: int,
    u: Uuid,
)
    requires
        parse_result_spec(items, attr_loc, r),
        no_item_fails(items),
        0 <= i < items.len(),
        items[i].key matches Some(k) && k@ == "uuid"@,
        items[i].rhs matches Rhs::Valued(v) && v.str_lit matches Some(s) && spec_parse_uuid(s@)
            == Some(u),
        forall|j: int| i < j < items.len() ==> !(check_item(#[trigger] items[j]) is SetUuid),
    ensures
        r matches Ok(args) && args.uuid == Some(u),
{
    assert(check_item(items[i]) == ItemCheck::SetUuid(u));
    lemma_last_uuid_at(items, i, u);
}

/// Fail-fast law: the first structurally invalid item decides the outcome;
/// later items, even a valid uuid item, cannot mask it.
pub proof fn lemma_fail_fast(
    items: Seq<MetaItem>,
    attr_loc: proc_macro2::Span,
    r: Result<CharacteristicArgs, Diagnostic>,
    i: int,
)
    requires
        parse_result_spec(items, attr_loc, r),
        0 <= i < items.len(),
        item_fails(items[i]),
        forall|j: int| 0 <= j < i ==> !item_fails(#[trigger] items[j]),
    ensures
        r matches Err(d) && (check_item(items[i]) matches ItemCheck::Fail(k, m) && d.kind == k
            && d.message@ == m && d.span == items[i].span),
{
    lemma_first_failure(items, attr_loc, r, i);
}

/// Callback pass-through law: the identifier of the last on_read item is
/// stored exactly, unevaluated and unresolved.
pub proof fn lemma_callback_pass_through(
    items: Seq<MetaItem>,
    attr_loc: proc_macro2::Span,
    r: Result<CharacteristicArgs, Diagnostic>,
    i: int,
    n: String,
)
    requires
        parse_result_spec(items, attr_loc, r),
        no_item_fails(items),
        last_uuid(items) is Some,
        0 <= i < items.len(),
        items[i].key matches Some(k) && k@ == "on_read"@,
        items[i].rhs matches Rhs::Valued(v) && v.ident == Some(n),
        forall|j: int| i < j < items.len() ==> !(check_item(#[trigger] items[j]) is SetOnRead),
    ensures
        r matches Ok(args) && args.on_read == Some(n),
{
    reveal_strlit("uuid");
    reveal_strlit("read");
    reveal_strlit("write");
    reveal_strlit("write_without_response");
    reveal_strlit("notify");
    reveal_strlit("indicate");
    reveal_strlit("value");
    reveal_strlit("on_write");
    reveal_strlit("on_read");
    assert(key_of("on_read"@) == Some(PropKey::OnRead));
    assert(check_item(items[i]) == ItemCheck::SetOnRead(n));
    lemma_last_on_read_at(items, i, n);
}

/// Callback pass-through law, write side: the identifier of the last
/// on_write item is stored exactly, unevaluated and unresolved.
pub proof fn lemma_write_callback_pass_through(
    items: Seq<MetaItem>,
    attr_loc: proc_macro2::Span,
    r: Result<CharacteristicArgs, Diagnostic>,
    i: int,
    n: String,
)
    requires
        parse_result_spec(items, attr_loc, r),
        no_item_fails(items),
        last_uuid(items) is Some,
        0 <= i < items.len(),
        items[i].key matches Some(k) && k@ == "on_write"@,
        items[i].rhs matches Rhs::Valued(v) && v.ident == Some(n),
        forall|j: int| i < j < items.len() ==> !(check_item(#[trigger] items[j]) is SetOnWrite),
    ensures
        r matches Ok(args) && args.on_write == Some(n),
{
    reveal_strlit("uuid");
    reveal_strlit("read");
    reveal_strlit("write");
    reveal_strlit("write_without_response");
    reveal_strlit("notify");
    reveal_strlit("indicate");
    reveal_strlit("value");
    reveal_strlit("on_write");
    assert(key_of("on_write"@) == Some(PropKey::OnWrite));
    assert(check_item(items[i]) == ItemCheck::SetOnWrite(n));
    lemma_last_on_write_at(items, i, n);
}

/// Value pass-through law: the expression of the last value item is stored
/// exactly, unevaluated.
pub proof fn lemma_value_pass_through(
    items: Seq<MetaItem>,
    attr_loc: proc_macro2::Span,
    r: Result<CharacteristicArgs, Diagnostic>,
    i: int,
    e: syn::Expr,
)
    requires
        parse_result_spec(items, attr_loc, r),
        no_item_fails(items),
        last_uuid(items) is Some,
        0 <= i < items.len(),
        items[i].key matches Some(k) && k@ == "value"@,
        items[i].rhs matches Rhs::Valued(v) && v.expr == e,
        forall|j: int| i < j < items.len() ==> !(check_item(#[trigger] items[j]) is SetValue),
    ensures
        r matches Ok(args) && args.value == Some(e),
{
    reveal_strlit("uuid");
    reveal_strlit("read");
    reveal_strlit("write");
    reveal_strlit("write_without_response");
    reveal_strlit("notify");
    reveal_strlit("indicate");
    reveal_strlit("value");
    assert(key_of("value"@) == Some(PropKey::InitialValue));
    assert(check_item(items[i]) == ItemCheck::SetValue(e));
    lemma_last_value_at(items, i, e);
}

} // verus!

