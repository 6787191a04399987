use typhoon::account_keys::{
    as_seeds, key_seed, seeds_with_bump, Field, Fields, KeyError, KeyType, KeyValue, PrimaryKey,
    PrimaryKeys,
};
use typhoon::account_derive::{derive_account, DeriveError};
use typhoon::remover::Attribute;

fn attr(path: &str, tokens: &str) -> Attribute {
    Attribute { path: vec![path.to_string()], tokens: tokens.to_string() }
}

fn field(name: &str, attrs: Vec<Attribute>, ty: &str) -> Field {
    Field { ident: Some(name.to_string()), attrs, ty: Some(ty.to_string()) }
}

#[test]
fn keys_are_the_marked_fields() {
    let fields = Fields::Named(vec![
        field("authority", vec![attr("key", "")], "Address"),
        field("count", vec![], "u64"),
        field("id", vec![attr("doc", "= \"x\""), attr("key", "")], "u32"),
        field("other", vec![attr("key", "(x)")], "u8"),
        field("name", vec![attr("key", "")], "String"),
    ]);
    let keys = PrimaryKeys::try_from(&fields).ok().unwrap();
    let names: Vec<String> = keys.0.iter().map(|k| k.name.clone()).collect();
    assert_eq!(names, vec!["authority", "id", "name"]);
    assert_eq!(
        keys.split_for_impl(),
        vec![Ok(KeyType::Address), Ok(KeyType::U32), Err(KeyError::InvalidKeyType)]
    );
    assert!(matches!(PrimaryKeys::try_from(&Fields::Unit), Err(KeyError::UnnamedFields)));
    assert!(matches!(PrimaryKeys::try_from(&Fields::Unnamed(vec![])), Err(KeyError::UnnamedFields)));
    let untyped = PrimaryKey { name: "k".to_string(), ty: None };
    assert_eq!(untyped.seeds_field_ty(), Err(KeyError::InvalidKeyType));
}

#[test]
fn seeds_are_name_then_keys() {
    let seeds = as_seeds("Escrow", &vec![KeyValue::Address([4; 32]), KeyValue::U64(258), KeyValue::U8(9)]);
    assert_eq!(seeds.len(), 4);
    assert_eq!(seeds[0], b"escrow".to_vec());
    assert_eq!(seeds[1], vec![4u8; 32]);
    assert_eq!(seeds[2], 258u64.to_le_bytes().to_vec());
    assert_eq!(seeds[3], vec![9]);
    let with_bump = seeds_with_bump("Escrow", &vec![KeyValue::U16(1)], &[255]);
    assert_eq!(with_bump, vec![b"escrow".to_vec(), vec![1, 0], vec![255]]);
    assert_eq!(key_seed(&KeyValue::U32(0x01020304)), vec![4, 3, 2, 1]);
}

#[test]
fn deriving_account_state() {
    let fields = Fields::Named(vec![field("owner", vec![attr("key", "")], "Address"), field("count", vec![], "u64")]);
    let derived = derive_account(true, &vec![attr("repr", "(C)")], &fields).ok().unwrap();
    assert!(derived.has_space);
    assert_eq!(derived.keys.0.len(), 1);
    assert_eq!(derived.keys.0[0].name, "owner");
    let no_space = derive_account(true, &vec![attr("no_space", "")], &fields).ok().unwrap();
    assert!(!no_space.has_space);
    assert_eq!(derive_account(false, &vec![], &fields).err(), Some(DeriveError::InvalidAccountType));
    assert_eq!(
        derive_account(true, &vec![], &Fields::Unnamed(vec![])).err(),
        Some(DeriveError::Keys(KeyError::UnnamedFields))
    );
}
