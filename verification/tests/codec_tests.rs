use binserde::{serialize, serialize_with, deserialize, deserialize_with, Error};
use binserde::value::{Value, Ty, FieldTy, VariantTy};
use binserde::serde::{Mode, UsizeLen};
use binserde::dedup::DedupContext;

fn str_val(s: &str) -> Value {
    Value::Str(s.to_string())
}

fn plain_field(ty: Ty) -> FieldTy {
    FieldTy { ty, skip: false, no_dedup: false }
}

#[test]
fn serialize_constant_output() {
    assert_eq!(
        &[3, 97, 98, 99],
        &*serialize(&str_val("abc"), &Ty::Str).unwrap()
    );

    assert_eq!(&[0xFF], &*serialize(&Value::Bool(true), &Ty::Bool).unwrap());
    assert_eq!(&[0x00], &*serialize(&Value::Bool(false), &Ty::Bool).unwrap());
}

#[test]
fn lib_serialize_constant_output() {
    assert_eq!(
        &[3, 97, 98, 99],
        &*serialize(&str_val("abc"), &Ty::Str).unwrap()
    );

    assert_eq!(&[0xFF], &*serialize(&Value::Bool(true), &Ty::Bool).unwrap());
    assert_eq!(&[0x00], &*serialize(&Value::Bool(false), &Ty::Bool).unwrap());

    assert_eq!(
        &[0x03, 0x02, 0x05, 0x45],
        &*serialize_with(
            &Value::List(vec![Value::I16(1), Value::I16(-3), Value::I16(-35)]),
            &Ty::List(Box::new(Ty::I16)),
            Mode::default().with_fixed_size_use_varint(true)
        )
        .unwrap()
    );
}

fn inline_test_value() -> (Value, Ty) {
    // a struct of a list of (string, i32) pairs, a map from strings to
    // string sets, and a list of three-variant enum values
    let test1_ty = Ty::Tuple(vec![Ty::Str, Ty::I32]);
    let test2_ty = Ty::Enum(vec![
        VariantTy { fields: vec![] },
        VariantTy {
            fields: vec![plain_field(Ty::I32), plain_field(Ty::I32), plain_field(Ty::I32)],
        },
        VariantTy { fields: vec![plain_field(Ty::I64)] },
    ]);
    let ty = Ty::Struct(vec![
        plain_field(Ty::List(Box::new(test1_ty))),
        plain_field(Ty::Dict(Box::new(Ty::Str), Box::new(Ty::List(Box::new(Ty::Str))))),
        plain_field(Ty::List(Box::new(test2_ty))),
    ]);

    let pair = |s: &str, n: i32| Value::Group(vec![str_val(s), Value::I32(n)]);
    let value = Value::Group(vec![
        Value::List(vec![
            pair("yyyyyyyyyyyyyyyyyy", 4),
            pair("a", 4),
            pair("yyyyyyyyyyyyyyyyyy", 4),
            pair("ab", 4),
            pair("abc", 4),
            pair("abcd", 4),
        ]),
        Value::List(vec![
            Value::Group(vec![
                str_val("a"),
                Value::List(vec![str_val("a"), str_val("b"), str_val("c")]),
            ]),
            Value::Group(vec![
                str_val("a1"),
                Value::List(vec![str_val("a1"), str_val("b1"), str_val("c1")]),
            ]),
        ]),
        Value::List(vec![
            Value::Case(0, vec![]),
            Value::Case(1, vec![Value::I32(1), Value::I32(1992323), Value::I32(5)]),
            Value::Case(2, vec![Value::I64(23456788765432)]),
        ]),
    ]);
    (value, ty)
}

#[test]
fn serialize_inline_test() {
    let (s, ty) = inline_test_value();

    {
        let mode = Mode::dedup();

        let buf = serialize_with(&s, &ty, mode).expect("failed to serialize");
        println!("{:02X?}", buf);

        let s1 = deserialize_with(&buf, &ty, mode).expect("failed to deserialize");

        assert_eq!(s, s1);
    }

    {
        let buf = serialize(&s, &ty).expect("failed to serialize");
        println!("{:02X?}", buf);

        let s1 = deserialize(&buf, &ty).expect("failed to deserialize");

        assert_eq!(s, s1);
    }
}

#[test]
fn lib_serialize_inline_test() {
    // the same shape without the enum list
    let test1_ty = Ty::Tuple(vec![Ty::Str, Ty::I32]);
    let ty = Ty::Struct(vec![
        plain_field(Ty::List(Box::new(test1_ty))),
        plain_field(Ty::Dict(Box::new(Ty::Str), Box::new(Ty::List(Box::new(Ty::Str))))),
    ]);
    let pair = |s: &str, n: i32| Value::Group(vec![str_val(s), Value::I32(n)]);
    let s = Value::Group(vec![
        Value::List(vec![
            pair("yyyyyyyyyyyyyyyyyy", 4),
            pair("a", 4),
            pair("yyyyyyyyyyyyyyyyyy", 4),
            pair("ab", 4),
            pair("abc", 4),
            pair("abcd", 4),
        ]),
        Value::List(vec![
            Value::Group(vec![
                str_val("a"),
                Value::List(vec![str_val("a"), str_val("b"), str_val("c")]),
            ]),
            Value::Group(vec![
                str_val("a1"),
                Value::List(vec![str_val("a1"), str_val("b1"), str_val("c1")]),
            ]),
        ]),
    ]);

    let mode = Mode::dedup();
    let buf = serialize_with(&s, &ty, mode).expect("failed to serialize");
    println!("{:02X?}", buf);
    let s1 = deserialize_with(&buf, &ty, mode).expect("failed to deserialize");
    assert_eq!(s, s1);

    let buf = serialize(&s, &ty).expect("failed to serialize");
    let s1 = deserialize(&buf, &ty).expect("failed to deserialize");
    assert_eq!(s, s1);
}

#[test]
fn roundtrip_all_scalar_types() {
    for mode in [Mode::default(), Mode::dedup(), Mode::default().with_fixed_size_use_varint(true)] {
        let cases: Vec<(Value, Ty)> = vec![
            (Value::Bool(true), Ty::Bool),
            (Value::U8(200), Ty::U8),
            (Value::U16(65535), Ty::U16),
            (Value::U32(4000000000), Ty::U32),
            (Value::U64(u64::MAX), Ty::U64),
            (Value::I16(i16::MIN), Ty::I16),
            (Value::I32(i32::MIN), Ty::I32),
            (Value::I64(i64::MIN), Ty::I64),
            (Value::Size(123456), Ty::Size),
            (str_val("hello world"), Ty::Str),
            (Value::Opt(None), Ty::Opt(Box::new(Ty::U8))),
            (Value::Opt(Some(Box::new(Value::U8(7)))), Ty::Opt(Box::new(Ty::U8))),
            (Value::Res(false, Box::new(Value::U8(1))), Ty::Res(Box::new(Ty::U8), Box::new(Ty::Str))),
            (Value::Res(true, Box::new(str_val("err"))), Ty::Res(Box::new(Ty::U8), Box::new(Ty::Str))),
            (
                Value::Group(vec![Value::U8(1), Value::U8(2), Value::U8(3)]),
                Ty::Array(Box::new(Ty::U8), 3),
            ),
        ];
        for (v, t) in cases {
            let buf = serialize_with(&v, &t, mode).unwrap();
            let back = deserialize_with(&buf, &t, mode).unwrap();
            assert_eq!(v, back);
        }
    }
}

#[test]
fn skip_field_resets_to_default() {
    // a struct of a kept string and a skip-marked u32 field
    let ty = Ty::Struct(vec![
        plain_field(Ty::Str),
        FieldTy { ty: Ty::U32, skip: true, no_dedup: false },
    ]);
    let v = Value::Group(vec![str_val("keep"), Value::U32(77)]);

    for mode in [Mode::default(), Mode::dedup()] {
        let buf = serialize_with(&v, &ty, mode).unwrap();
        let back = deserialize_with(&buf, &ty, mode).unwrap();
        assert_eq!(
            back,
            Value::Group(vec![str_val("keep"), Value::U32(0)])
        );
    }
}

#[test]
fn no_dedup_field_stays_out_of_table() {
    // two sibling fields hold the same string; the second opts out of
    // deduplication, so the shared table holds the string only for the
    // first, and exactly once
    let ty = Ty::Struct(vec![
        plain_field(Ty::Str),
        plain_field(Ty::Str),
        FieldTy { ty: Ty::Str, skip: false, no_dedup: true },
    ]);
    let v = Value::Group(vec![str_val("shared"), str_val("shared"), str_val("shared")]);

    let buf = serialize_with(&v, &ty, Mode::dedup()).unwrap();
    let (table, _) = DedupContext::read_from(&buf, 0).unwrap();
    assert_eq!(table.len(), 1);
    assert_eq!(table.get_str(0), Some("shared"));

    let back = deserialize_with(&buf, &ty, Mode::dedup()).unwrap();
    assert_eq!(back, v);
}

#[test]
fn no_dedup_only_field_leaves_table_empty() {
    let ty = Ty::Struct(vec![FieldTy { ty: Ty::Str, skip: false, no_dedup: true }]);
    let v = Value::Group(vec![str_val("solo")]);
    let buf = serialize_with(&v, &ty, Mode::dedup()).unwrap();
    let (table, _) = DedupContext::read_from(&buf, 0).unwrap();
    assert_eq!(table.len(), 0);
    assert_eq!(deserialize_with(&buf, &ty, Mode::dedup()).unwrap(), v);
}

#[test]
fn dedup_is_deterministic() {
    let (v, ty) = inline_test_value();
    let a = serialize_with(&v, &ty, Mode::dedup()).unwrap();
    let b = serialize_with(&v, &ty, Mode::dedup()).unwrap();
    assert_eq!(a, b);
}

#[test]
fn dedup_table_ids_in_first_occurrence_order() {
    let ty = Ty::List(Box::new(Ty::Str));
    let v = Value::List(vec![str_val("b"), str_val("a"), str_val("b"), str_val("c")]);
    let buf = serialize_with(&v, &ty, Mode::dedup()).unwrap();
    let (table, _) = DedupContext::read_from(&buf, 0).unwrap();
    assert_eq!(table.len(), 3);
    assert_eq!(table.get_str(0), Some("b"));
    assert_eq!(table.get_str(1), Some("a"));
    assert_eq!(table.get_str(2), Some("c"));
}

#[test]
fn invalid_variant_is_rejected() {
    let ty = Ty::Enum(vec![
        VariantTy { fields: vec![] },
        VariantTy { fields: vec![plain_field(Ty::U8)] },
    ]);
    // discriminant 5, past the two known variants
    let buf = vec![5u8];
    assert_eq!(deserialize(&buf, &ty), Err(Error::InvalidVariant(5)));
}

#[test]
fn empty_sum_type_never_decodes() {
    let ty = Ty::Enum(vec![]);
    for buf in [vec![], vec![0u8], vec![1u8, 2, 3]] {
        assert_eq!(deserialize(&buf, &ty), Err(Error::EmptySumType));
    }
}

#[test]
fn option_bad_tag_is_invalid_variant() {
    let ty = Ty::Opt(Box::new(Ty::U8));
    let buf = vec![9u8, 0];
    assert_eq!(deserialize(&buf, &ty), Err(Error::InvalidVariant(9)));
}

#[test]
fn truncated_input_is_io_error() {
    let ty = Ty::U32;
    let buf = vec![1u8, 2];
    assert_eq!(deserialize(&buf, &ty), Err(Error::Io));
}

#[test]
fn size_too_large_for_width_is_rejected() {
    let mode = Mode::default().with_usize_len(UsizeLen::U8);
    let v = Value::Size(300);
    assert_eq!(serialize_with(&v, &Ty::Size, mode), Err(Error::TryFromInt));
}

#[test]
fn invalid_utf8_is_rejected() {
    // inline string of length 1 whose byte is not valid UTF-8
    let buf = vec![1u8, 0xFF];
    assert_eq!(deserialize(&buf, &Ty::Str), Err(Error::InvalidUtf8));
}

#[test]
fn string_index_out_of_range_is_rejected() {
    // dedup mode: an empty table, then a payload referencing entry 3
    let mut buf = Vec::new();
    buf.push(0u8); // empty table
    buf.push(3u8); // string reference
    assert_eq!(
        deserialize_with(&buf, &Ty::Str, Mode::dedup()),
        Err(Error::StrOutOfRange(3))
    );
}

#[test]
fn fixed_width_modes_roundtrip() {
    for width in [UsizeLen::U8, UsizeLen::U16, UsizeLen::U32, UsizeLen::U64, UsizeLen::Variable] {
        let mode = Mode::default().with_usize_len(width);
        let ty = Ty::List(Box::new(Ty::Str));
        let v = Value::List(vec![str_val("x"), str_val("yz")]);
        let buf = serialize_with(&v, &ty, mode).unwrap();
        assert_eq!(deserialize_with(&buf, &ty, mode).unwrap(), v);
    }
}

#[test]
fn dedup_indices_replace_strings() {
    // with dedup on, a repeated long string is stored once: the blob is
    // shorter than with dedup off
    let ty = Ty::List(Box::new(Ty::Str));
    let v = Value::List(vec![
        str_val("a rather long repeated string"),
        str_val("a rather long repeated string"),
        str_val("a rather long repeated string"),
    ]);
    let with = serialize_with(&v, &ty, Mode::dedup()).unwrap();
    let without = serialize(&v, &ty).unwrap();
    assert!(with.len() < without.len());
    assert_eq!(deserialize_with(&with, &ty, Mode::dedup()).unwrap(), v);
    assert_eq!(deserialize(&without, &ty).unwrap(), v);
}

#[test]
fn error_custom_carries_message() {
    let e = Error::custom("something domain-specific");
    assert_eq!(e, Error::Custom("something domain-specific".to_string()));
}

#[test]
fn deserialize_in_place_replaces_target() {
    let ty = Ty::U16;
    let buf = binserde::serialize(&Value::U16(999), &ty).unwrap();
    let mut target = Value::U16(1);
    binserde::deserialize_in_place(&mut target, &buf, &ty, Mode::default()).unwrap();
    assert_eq!(target, Value::U16(999));
}
