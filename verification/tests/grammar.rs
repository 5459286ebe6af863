use gatt_args::characteristic::{Characteristic, CharacteristicArgs, FieldInfo};
use gatt_args::descriptor::DescriptorArgs;
use gatt_args::meta::{Diagnostic, ErrorKind, MetaItem, Rhs};
use gatt_args::uuid::Uuid;

fn ok<T>(r: Result<T, Diagnostic>) -> T {
    match r {
        Ok(v) => v,
        Err(d) => panic!("expected success, got error: {}", d.message),
    }
}

fn err<T>(r: Result<T, Diagnostic>) -> Diagnostic {
    match r {
        Ok(_) => panic!("expected an error, parse succeeded"),
        Err(d) => d,
    }
}

/// Builds a real field attribute `#[characteristic(<args>)]` through syn.
fn attr(args: &str) -> syn::Attribute {
    let src = format!("struct S {{ #[characteristic({})] f: u8 }}", args);
    let item: syn::ItemStruct = syn::parse_str(&src).unwrap();
    let field = item.fields.iter().next().unwrap().clone();
    field.attrs.into_iter().next().unwrap()
}

fn field_with(args: &str) -> syn::Field {
    let src = format!("struct S {{ #[characteristic({})] pub heart_rate: [u8; 2] }}", args);
    let item: syn::ItemStruct = syn::parse_str(&src).unwrap();
    item.fields.iter().next().unwrap().clone()
}

#[test]
fn scenario_uuid_read_notify() {
    let args = ok(CharacteristicArgs::parse(&attr("uuid = \"0x2A37\", read, notify")));
    assert_eq!(args.uuid, Some(Uuid::Uuid16(0x2A37)));
    assert!(args.read);
    assert!(args.notify);
    assert!(!args.write);
    assert!(!args.write_without_response);
    assert!(!args.indicate);
    assert!(!args.app_managed);
    assert!(args.value.is_none());
    assert!(args.on_read.is_none());
    assert!(args.on_write.is_none());
    assert!(args.descriptors.is_empty());
}

#[test]
fn scenario_missing_uuid() {
    let err = err(CharacteristicArgs::parse(&attr("read, notify")));
    assert_eq!(err.kind, ErrorKind::MissingUuid);
    assert_eq!(err.message, "Characteristic must have a UUID");
}

#[test]
fn scenario_unknown_key_lists_all_properties() {
    let err = err(CharacteristicArgs::parse(&attr("uuid = \"0x2A37\", foo")));
    assert_eq!(err.kind, ErrorKind::UnsupportedKey);
    assert!(err.message.contains("'foo'"));
    for name in [
        "uuid",
        "read",
        "write",
        "write_without_response",
        "notify",
        "indicate",
        "value",
        "on_read",
        "on_write",
        "app_managed",
    ] {
        assert!(err.message.contains(name), "message misses {}", name);
    }
}

#[test]
fn fail_fast_second_item_decides() {
    let err = err(CharacteristicArgs::parse(&attr("read, bar, uuid = \"0x2A37\"")));
    assert_eq!(err.kind, ErrorKind::UnsupportedKey);
    assert!(err.message.contains("'bar'"));
}

#[test]
fn flag_subset_exactly() {
    let args = ok(CharacteristicArgs::parse(
        &attr("uuid = \"180F\", write, indicate, app_managed"),
    ));
    assert!(!args.read);
    assert!(args.write);
    assert!(!args.write_without_response);
    assert!(!args.notify);
    assert!(args.indicate);
    assert!(args.app_managed);
}

#[test]
fn all_flags_set() {
    let args = ok(CharacteristicArgs::parse(
        &attr(
            "uuid = \"180F\", read, write, write_without_response, notify, indicate, app_managed",
        ),
    ));
    assert!(
        args.read && args.write && args.write_without_response && args.notify && args.indicate
            && args.app_managed
    );
}

#[test]
fn callback_pass_through() {
    let args = ok(CharacteristicArgs::parse(
        &attr("uuid = \"0x2A37\", on_read = my_callback"),
    ));
    assert_eq!(args.on_read.as_deref(), Some("my_callback"));
    assert!(args.on_write.is_none());
}

#[test]
fn on_write_pass_through() {
    let args = ok(CharacteristicArgs::parse(
        &attr("uuid = \"0x2A37\", on_write = chr_write, on_read = chr_read"),
    ));
    assert_eq!(args.on_write.as_deref(), Some("chr_write"));
    assert_eq!(args.on_read.as_deref(), Some("chr_read"));
}

#[test]
fn value_expression_stored() {
    let args = ok(CharacteristicArgs::parse(&attr("uuid = \"180F\", value = [0u8; 2]")));
    assert!(matches!(args.value, Some(syn::Expr::Repeat(_))));
}

#[test]
fn uuid_bare_needs_value() {
    let err = err(CharacteristicArgs::parse(&attr("uuid, read")));
    assert_eq!(err.kind, ErrorKind::MissingValue);
    assert_eq!(err.message, "uuid must be followed by '= [data]'.  i.e. uuid = '0x2A37'");
}

#[test]
fn value_bare_needs_value() {
    let err = err(CharacteristicArgs::parse(&attr("uuid = \"180F\", value")));
    assert_eq!(err.kind, ErrorKind::MissingValue);
    assert_eq!(err.message, "value must be followed by '= [data]'.  i.e. value = 'hello'");
}

#[test]
fn on_write_bare_needs_value() {
    let err = err(CharacteristicArgs::parse(&attr("on_write")));
    assert_eq!(err.kind, ErrorKind::MissingValue);
    assert_eq!(
        err.message,
        "on_write must be followed by '= [callback]'. i.e. on_write = characterisic_on_write",
    );
}

#[test]
fn on_read_bare_needs_value() {
    let err = err(CharacteristicArgs::parse(&attr("on_read")));
    assert_eq!(err.kind, ErrorKind::MissingValue);
    assert_eq!(
        err.message,
        "on_read must be followed by '= [callback]'. i.e. on_read = characteristic_on_read",
    );
}

#[test]
fn uuid_value_must_be_string_literal() {
    let err = err(CharacteristicArgs::parse(&attr("uuid = 42")));
    assert_eq!(err.kind, ErrorKind::MalformedValue);
    assert_eq!(err.message, "expected string literal");
}

#[test]
fn callback_must_be_identifier() {
    let err = err(CharacteristicArgs::parse(&attr("uuid = \"180F\", on_read = \"nope\"")));
    assert_eq!(err.kind, ErrorKind::MalformedValue);
    assert_eq!(err.message, "expected identifier");
}

#[test]
fn path_key_is_malformed() {
    let err = err(CharacteristicArgs::parse(&attr("some::path = 1")));
    assert_eq!(err.kind, ErrorKind::MalformedKey);
    assert_eq!(err.message, "no ident");
}

#[test]
fn flag_with_value_rejected() {
    let err = err(CharacteristicArgs::parse(&attr("uuid = \"180F\", read = true")));
    assert_eq!(err.kind, ErrorKind::MalformedValue);
}

#[test]
fn invalid_uuid_string_rejected() {
    let err = err(CharacteristicArgs::parse(&attr("uuid = \"xyz\"")));
    assert_eq!(err.kind, ErrorKind::InvalidUuid);
    assert!(err.message.contains("invalid UUID string"));
}

#[test]
fn last_uuid_wins() {
    let args = ok(CharacteristicArgs::parse(
        &attr("uuid = \"180F\", uuid = \"0x2A37\""),
    ));
    assert_eq!(args.uuid, Some(Uuid::Uuid16(0x2A37)));
}

#[test]
fn uuid_16_bit_forms() {
    assert_eq!(Uuid::from_string("0x2A37"), Ok(Uuid::Uuid16(0x2A37)));
    assert_eq!(Uuid::from_string("2A37"), Ok(Uuid::Uuid16(0x2A37)));
    assert_eq!(Uuid::from_string("180f"), Ok(Uuid::Uuid16(0x180F)));
    assert_eq!(Uuid::from_string("0X2a37"), Ok(Uuid::Uuid16(0x2A37)));
}

#[test]
fn uuid_32_bit_forms() {
    assert_eq!(Uuid::from_string("0x12345678"), Ok(Uuid::Uuid32(0x12345678)));
    assert_eq!(Uuid::from_string("cafebabe"), Ok(Uuid::Uuid32(0xCAFEBABE)));
}

#[test]
fn uuid_128_bit_form() {
    assert_eq!(
        Uuid::from_string("00002a37-0000-1000-8000-00805f9b34fb"),
        Ok(Uuid::Uuid128(0x00002a37_0000_1000_8000_00805f9b34fb)),
    );
}

#[test]
fn uuid_rejects_bad_strings() {
    assert!(Uuid::from_string("").is_err());
    assert!(Uuid::from_string("123").is_err());
    assert!(Uuid::from_string("0x2A3").is_err());
    assert!(Uuid::from_string("2A3X").is_err());
    assert!(Uuid::from_string("00002a37-0000-1000-8000-00805f9b34f").is_err());
    assert!(Uuid::from_string("00002a37+0000-1000-8000-00805f9b34fb").is_err());
    assert!(Uuid::from_string("0x123456789").is_err());
}

#[test]
fn empty_attribute_reports_missing_uuid() {
    let err = err(CharacteristicArgs::parse(&attr("")));
    assert_eq!(err.kind, ErrorKind::MissingUuid);
}

#[test]
fn parse_items_directly() {
    let items: Vec<MetaItem> = vec![
        MetaItem {
            key: Some("read".to_string()),
            rhs: Rhs::Bare,
            span: proc_macro2::Span::call_site(),
        },
    ];
    let err = err(CharacteristicArgs::parse_items(&items, proc_macro2::Span::call_site()));
    assert_eq!(err.kind, ErrorKind::MissingUuid);
}

#[test]
fn characteristic_new_binds_field() {
    let field = field_with("uuid = \"0x2A37\", read");
    let args = ok(CharacteristicArgs::parse(&field.attrs[0]));
    let info = FieldInfo {
        name: field.ident.as_ref().map(|i| i.to_string()),
        ty: field.ty.clone(),
        span: proc_macro2::Span::call_site(),
        vis: field.vis.clone(),
    };
    assert_eq!(info.name.as_deref(), Some("heart_rate"));
    let c = Characteristic::new(info, args);
    assert_eq!(c.name, "heart_rate");
    assert!(c.args.read);
    assert!(matches!(c.ty, syn::Type::Array(_)));
    assert!(matches!(c.vis, syn::Visibility::Public(_)));
}

#[test]
fn characteristic_from_syn_field() {
    let field = field_with("uuid = \"0x2A37\", read, notify");
    let args = ok(CharacteristicArgs::parse(&field.attrs[0]));
    let c = match Characteristic::from_syn_field(&field, args) {
        Some(c) => c,
        None => panic!("field had a name, binding must succeed"),
    };
    assert_eq!(c.name, "heart_rate");
    assert!(c.args.read && c.args.notify);
    assert_eq!(c.args.uuid, Some(Uuid::Uuid16(0x2A37)));
}

#[test]
fn descriptor_uuid_and_value() {
    let d = ok(DescriptorArgs::parse(&attr("uuid = \"2902\", value = 7")));
    assert_eq!(d.uuid, Uuid::Uuid16(0x2902));
    assert!(matches!(d.value, Some(syn::Expr::Lit(_))));
}

#[test]
fn descriptor_uuid_alone() {
    let d = ok(DescriptorArgs::parse(&attr("uuid = \"2902\"")));
    assert_eq!(d.uuid, Uuid::Uuid16(0x2902));
    assert!(d.value.is_none());
}

#[test]
fn descriptor_missing_uuid() {
    let err = err(DescriptorArgs::parse(&attr("value = 7")));
    assert_eq!(err.kind, ErrorKind::MissingUuid);
    assert_eq!(err.message, "Descriptor must have a UUID");
}

#[test]
fn descriptor_unknown_key() {
    let err = err(DescriptorArgs::parse(&attr("uuid = \"2902\", read")));
    assert_eq!(err.kind, ErrorKind::UnsupportedKey);
    assert!(err.message.contains("'read'"));
    assert!(err.message.contains("uuid, value"));
}

#[test]
fn bare_attribute_is_rejected() {
    let src = "struct S { #[characteristic] f: u8 }";
    let item: syn::ItemStruct = syn::parse_str(src).unwrap();
    let field = item.fields.iter().next().unwrap().clone();
    let e = err(CharacteristicArgs::parse(&field.attrs[0]));
    assert_eq!(e.kind, ErrorKind::MalformedValue);
    assert_eq!(e.message, "expected attribute arguments in parentheses");
}

#[test]
fn name_value_attribute_is_rejected() {
    let src = "struct S { #[characteristic = \"x\"] f: u8 }";
    let item: syn::ItemStruct = syn::parse_str(src).unwrap();
    let field = item.fields.iter().next().unwrap().clone();
    let e = err(CharacteristicArgs::parse(&field.attrs[0]));
    assert_eq!(e.kind, ErrorKind::MalformedValue);
    assert_eq!(e.message, "expected parentheses");
}

#[test]
fn hand_assembled_empty_path_attribute_is_rejected() {
    let attr = syn::Attribute {
        pound_token: Default::default(),
        style: syn::AttrStyle::Outer,
        bracket_token: Default::default(),
        meta: syn::Meta::Path(syn::Path {
            leading_colon: None,
            segments: syn::punctuated::Punctuated::new(),
        }),
    };
    let e = err(CharacteristicArgs::parse(&attr));
    assert_eq!(e.kind, ErrorKind::MalformedValue);
    assert_eq!(e.message, "expected attribute arguments in parentheses");
}
