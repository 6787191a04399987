use typhoon::size_derive::{
    borsh_size_gen_enum, borsh_size_gen_struct, expr_from_ty, gen_max, get_len_expr_from_fields,
    ty_len, FieldType, GenericArg, SizeArg, SizeError, SizeField,
};

fn path(name: &str, text: &str) -> FieldType {
    FieldType::Path { name: Some(name.to_string()), first_arg: GenericArg::NotAngle, text: text.to_string() }
}

fn vec_of(inner: FieldType, text: &str) -> FieldType {
    FieldType::Path {
        name: Some("Vec".to_string()),
        first_arg: GenericArg::FirstType(Box::new(inner)),
        text: text.to_string(),
    }
}

fn max_len(v: &str) -> SizeArg {
    SizeArg { is_raw: false, value: v.to_string() }
}

fn raw(v: &str) -> SizeArg {
    SizeArg { is_raw: true, value: v.to_string() }
}

fn field(ty: FieldType, attrs: Vec<Vec<SizeArg>>) -> SizeField {
    SizeField { named: true, size_attrs: attrs, ty }
}

#[test]
fn space_of_simple_types() {
    let mut none = vec![];
    assert_eq!(expr_from_ty(&path("u64", "u64"), &mut none).ok(), Some("<u64 as BorshSize>::SIZE".to_string()));
    let mut args = vec![max_len("10")];
    assert_eq!(expr_from_ty(&path("String", "String"), &mut args).ok(), Some("(4 + 10)".to_string()));
    assert!(args.is_empty());
    let mut args = vec![];
    assert_eq!(expr_from_ty(&path("String", "String"), &mut args).err(), Some(SizeError::NoMaxLen));
    let mut args = vec![raw("64")];
    assert_eq!(expr_from_ty(&path("String", "String"), &mut args).ok(), Some("64".to_string()));
    let array = FieldType::Array { elem: Box::new(path("u8", "u8")), len: "3".to_string() };
    let mut args = vec![];
    assert_eq!(expr_from_ty(&array, &mut args).ok(), Some("(3 * <u8 as BorshSize>::SIZE)".to_string()));
    let mut args = vec![];
    assert_eq!(
        expr_from_ty(&FieldType::Path { name: None, first_arg: GenericArg::NotAngle, text: "".to_string() }, &mut args).err(),
        Some(SizeError::InvalidPath)
    );
}

#[test]
fn space_of_nested_vectors() {
    let ty = vec_of(path("String", "String"), "Vec<String>");
    let mut args = vec![max_len("20"), max_len("5")];
    assert_eq!(expr_from_ty(&ty, &mut args).ok(), Some("(4 + (4 + 20) * 5)".to_string()));
    assert!(args.is_empty());
    let ty = vec_of(path("u32", "u32"), "Vec<u32>");
    let mut args = vec![max_len("7"), max_len("5")];
    assert_eq!(expr_from_ty(&ty, &mut args).ok(), Some("(4 + <u32 as BorshSize>::SIZE * 5)".to_string()));
    assert_eq!(args.len(), 0);
    let bad = FieldType::Path { name: Some("Vec".to_string()), first_arg: GenericArg::FirstNotType, text: "Vec<'a>".to_string() };
    let mut args = vec![max_len("2")];
    assert_eq!(expr_from_ty(&bad, &mut args).err(), Some(SizeError::FirstArgNotType));
    let bad = FieldType::Path { name: Some("Vec".to_string()), first_arg: GenericArg::NotAngle, text: "Vec".to_string() };
    let mut args = vec![max_len("2")];
    assert_eq!(expr_from_ty(&bad, &mut args).err(), Some(SizeError::InvalidArguments));
}

#[test]
fn field_and_struct_spaces() {
    let tuple = SizeField { named: false, size_attrs: vec![], ty: path("u8", "u8") };
    assert_eq!(ty_len(&tuple).err(), Some(SizeError::TupleField));
    let twice = field(path("String", "String"), vec![vec![max_len("1")], vec![raw("2")]]);
    assert_eq!(ty_len(&twice).err(), Some(SizeError::ConflictingAttributes));

    let fields = vec![
        field(path("String", "String"), vec![vec![max_len("32")]]),
        field(path("Pubkey", "Pubkey"), vec![]),
    ];
    assert_eq!(
        get_len_expr_from_fields(&fields).ok(),
        Some("0 + (4 + 32) + <Pubkey as BorshSize>::SIZE".to_string())
    );
    assert_eq!(borsh_size_gen_struct(&vec![]).ok(), Some("0".to_string()));
    let broken = vec![field(path("String", "String"), vec![]), tuple, field(path("u8", "u8"), vec![])];
    assert_eq!(get_len_expr_from_fields(&broken).err(), Some(vec![SizeError::NoMaxLen, SizeError::TupleField]));
}

#[test]
fn enum_space_is_tag_and_largest_variant() {
    let variants = vec![
        vec![],
        vec![field(path("u64", "u64"), vec![])],
        vec![field(path("String", "String"), vec![vec![max_len("8")]]), field(path("u8", "u8"), vec![])],
    ];
    assert_eq!(
        borsh_size_gen_enum(&variants).ok(),
        Some("1 + max(0, max(0 + <u64 as BorshSize>::SIZE, max(0 + (4 + 8) + <u8 as BorshSize>::SIZE, 0)))".to_string())
    );
    let failing = vec![vec![field(path("String", "String"), vec![])], vec![SizeField { named: false, size_attrs: vec![], ty: path("u8", "u8") }]];
    assert_eq!(borsh_size_gen_enum(&failing).err(), Some(vec![SizeError::NoMaxLen, SizeError::TupleField]));
    assert_eq!(gen_max(&vec![]), "0");
    assert_eq!(gen_max(&vec!["a".to_string(), "b".to_string()]), "max(a, max(b, 0))");
}
