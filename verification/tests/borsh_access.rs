use borsh::{BorshDeserialize, BorshSerialize};
use typhoon::accessor::BorshAccessor;
use typhoon::size::{max, BorshSize};
use typhoon::vector::BorshVector;
use typhoon::writer::BorshWriter;

#[test]
fn test_str_vector() {
    let data = borsh::to_vec(&vec!["j'aime", "les", "pâtes"]).unwrap();
    let vector: BorshVector<'_, &str> = BorshVector::new(&data);

    assert_eq!(vector.get(..), &["j'aime", "les", "pâtes"]);

    assert_eq!(vector.at(0).unwrap(), "j'aime");
    assert_eq!(vector.at(1).unwrap(), "les");
    assert_eq!(vector.at(2).unwrap(), "pâtes");
    assert!(vector.at(3).is_none());
}

#[test]
fn test_simple_vector() {
    let data = borsh::to_vec(&vec![1, 2, 3]).unwrap();
    let vector: BorshVector<'_, u32> = BorshVector::new(&data);

    let mut el = 1;
    for inner_el in vector.get(..) {
        assert_eq!(el, inner_el);
        el += 1;
    }
}

#[test]
fn test_complex_vector() {
    let data = vec![vec![1, 2], vec![2, 3], vec![4, 5]];
    let serialized = borsh::to_vec(&data).unwrap();

    let vector: BorshVector<'_, BorshVector<'_, u32>> = BorshVector::new(&serialized);

    let mut result = 2;
    let el = vector.at(1).unwrap();

    for inner_el in el.get(..) {
        assert_eq!(result, inner_el);
        result += 1;
    }
}

#[test]
fn test_str_writer() {
    let s = "hello";
    let mut buf = [0u8; 9];
    <&str as BorshWriter>::write(&mut buf, s);

    let len = u32::convert(&buf[..4]);
    assert_eq!(len, 5);
    assert_eq!(&buf[4..9], b"hello");
}

#[test]
fn test_str_with_other() {
    let mut buf = [0u8; 14];
    "hello".serialize(&mut buf.as_mut_slice()).unwrap();
    10.serialize(&mut buf.as_mut_slice()).unwrap();

    <&str as BorshWriter>::write(&mut buf, "hello2");
    let result = String::deserialize(&mut buf.as_slice()).unwrap();
    assert_eq!(result, "hello2");
}

#[test]
fn vector_range_selects_elements() {
    let data = borsh::to_vec(&vec![10u64, 20, 30, 40]).unwrap();
    let vector: BorshVector<'_, u64> = BorshVector::new(&data);
    assert_eq!(vector.get(1..3), vec![20, 30]);
    assert_eq!(vector.get(2..2), Vec::<u64>::new());
    assert_eq!(vector.at(3), Some(40));
    assert_eq!(vector.at(4), None);
}

#[test]
fn empty_vector_has_no_element() {
    let data = borsh::to_vec(&Vec::<u16>::new()).unwrap();
    let vector: BorshVector<'_, u16> = BorshVector::new(&data);
    assert!(vector.get(..).is_empty());
    assert!(vector.at(0).is_none());
}

#[test]
fn vector_total_length_counts_prefix_and_elements() {
    let data = borsh::to_vec(&vec!["ab", "cde"]).unwrap();
    assert_eq!(<BorshVector<'_, &str> as BorshAccessor>::len(&data), 4 + (4 + 2) + (4 + 3));
    let data = borsh::to_vec(&vec![7u32, 8]).unwrap();
    assert_eq!(<BorshVector<'_, u32> as BorshAccessor>::len(&data), 12);
}

#[test]
fn numbers_read_back_what_was_written() {
    let mut buf = [0u8; 16];
    <u64 as BorshWriter>::write(&mut buf, 0x0102_0304_0506_0708);
    assert_eq!(&buf[..8], &[8, 7, 6, 5, 4, 3, 2, 1]);
    assert_eq!(u64::convert(&buf), 0x0102_0304_0506_0708);

    <i32 as BorshWriter>::write(&mut buf, -2);
    assert_eq!(&buf[..4], &[0xfe, 0xff, 0xff, 0xff]);
    assert_eq!(i32::convert(&buf), -2);

    <i128 as BorshWriter>::write(&mut buf, i128::MIN);
    assert_eq!(i128::convert(&buf), i128::MIN);

    <u16 as BorshWriter>::write(&mut buf, 513);
    assert_eq!(&buf[..2], &[1, 2]);
    assert_eq!(u16::convert(&buf), 513);

    <i8 as BorshWriter>::write(&mut buf, -1);
    assert_eq!(buf[0], 0xff);
    assert_eq!(i8::convert(&buf), -1);
}

#[test]
fn accessors_match_borsh_encoding() {
    let data = borsh::to_vec(&"pâtes").unwrap();
    assert_eq!(<&str as BorshAccessor>::len(&data), 4 + "pâtes".len());
    assert_eq!(<&str as BorshAccessor>::convert(&data), "pâtes");

    let data = borsh::to_vec(&true).unwrap();
    assert!(bool::convert(&data));
    assert_eq!(bool::len(&data), 1);

    let data = borsh::to_vec(&-12345i64).unwrap();
    assert_eq!(i64::convert(&data), -12345);

    let key = [9u8; 32];
    let data = borsh::to_vec(&key).unwrap();
    assert_eq!(<&[u8; 32] as BorshAccessor>::convert(&data), &key);
    assert_eq!(<&[u8; 32] as BorshAccessor>::len(&data), 32);
}

#[test]
fn shorter_string_moves_what_follows() {
    // "hello" followed by the byte 42, then padding
    let mut buf = [0u8; 11];
    buf[..4].copy_from_slice(&5u32.to_le_bytes());
    buf[4..9].copy_from_slice(b"hello");
    buf[9] = 42;
    <&str as BorshWriter>::write(&mut buf, "hey");
    assert_eq!(&buf[..4], &3u32.to_le_bytes());
    assert_eq!(&buf[4..7], b"hey");
    assert_eq!(buf[7], 42);
    assert_eq!(buf[8], 0);
}

#[test]
fn pubkey_writer_copies_the_key() {
    let mut buf = [0u8; 32];
    let key = [3u8; 32];
    <&[u8; 32] as BorshWriter>::write(&mut buf, &key);
    assert_eq!(buf, key);
}

#[test]
fn sizes_of_fixed_types() {
    assert_eq!(<u8 as BorshSize>::SIZE, 1);
    assert_eq!(<bool as BorshSize>::SIZE, 1);
    assert_eq!(<u16 as BorshSize>::SIZE, 2);
    assert_eq!(<i32 as BorshSize>::SIZE, 4);
    assert_eq!(<u64 as BorshSize>::SIZE, 8);
    assert_eq!(<i128 as BorshSize>::SIZE, 16);
    assert_eq!(<Option<u32> as BorshSize>::SIZE, 5);
    assert_eq!(<[u8; 32] as BorshSize>::SIZE, 32);
    assert_eq!(max(3, 9), 9);
    assert_eq!(max(9, 3), 9);
    assert_eq!(max(4, 4), 4);
}

use typhoon::borsh_layout::{field_offset, SupportedType};

#[test]
fn layout_of_fixed_and_prefixed_fields() {
    let data = borsh::to_vec(&(7u8, "abc", vec![1u32, 2], Some(5u16), [9u64; 2])).unwrap();
    let fields = vec![
        SupportedType::U8,
        SupportedType::String,
        SupportedType::Vec(Box::new(SupportedType::U32)),
        SupportedType::Option(Box::new(SupportedType::U16)),
        SupportedType::Array(Box::new(SupportedType::U64), 2),
    ];
    assert_eq!(field_offset(&fields, &data, 0), Some(0));
    assert_eq!(field_offset(&fields, &data, 1), Some(1));
    assert_eq!(field_offset(&fields, &data, 2), Some(1 + 4 + 3));
    assert_eq!(field_offset(&fields, &data, 3), Some(8 + 4 + 8));
    assert_eq!(field_offset(&fields, &data, 4), Some(20 + 3));
    let whole = SupportedType::Defined("Row".to_string(), fields);
    assert_eq!(whole.read_len(&data, 0), Some(data.len()));
}

#[test]
fn layout_of_absent_option_and_nested_struct() {
    let data = borsh::to_vec(&(None::<u32>, ("xy", true), 3i16)).unwrap();
    let inner = SupportedType::Defined("Inner".to_string(), vec![SupportedType::String, SupportedType::Bool]);
    let fields = vec![SupportedType::Option(Box::new(SupportedType::U32)), inner, SupportedType::I16];
    assert_eq!(field_offset(&fields, &data, 1), Some(1));
    assert_eq!(field_offset(&fields, &data, 2), Some(1 + 4 + 2 + 1));
    assert_eq!(SupportedType::Defined("Outer".to_string(), fields).read_len(&data, 0), Some(data.len()));
}

#[test]
fn layout_that_reads_past_the_data() {
    let data = vec![1u8, 0];
    assert_eq!(SupportedType::String.read_len(&data, 0), None);
    assert_eq!(SupportedType::Option(Box::new(SupportedType::U8)).read_len(&data, 2), None);
    assert_eq!(SupportedType::U64.read_len(&data, 0), Some(8));
    assert_eq!(SupportedType::Pubkey.read_len(&data, usize::MAX - 1), None);
    let strings = borsh::to_vec(&vec!["a", "bcd"]).unwrap();
    assert_eq!(
        SupportedType::Vec(Box::new(SupportedType::String)).read_len(&strings, 0),
        Some(strings.len())
    );
}

#[test]
fn vector_other_ranges() {
    let data = borsh::to_vec(&vec![10u64, 20, 30, 40]).unwrap();
    let vector: BorshVector<'_, u64> = BorshVector::new(&data);
    assert_eq!(vector.get(1..=2), vec![20, 30]);
    assert_eq!(vector.get(3..=9), vec![40]);
}

#[test]
fn string_layout_agrees_with_string_accessor() {
    for s in ["", "abc", "pâtes"] {
        let data = borsh::to_vec(&s).unwrap();
        assert_eq!(SupportedType::String.read_len(&data, 0), Some(<&str as BorshAccessor>::len(&data)));
    }
}

fn child_fields() -> Vec<SupportedType> {
    vec![SupportedType::I64, SupportedType::I128, SupportedType::I8, SupportedType::Bool, SupportedType::Pubkey]
}

#[test]
fn test_gen() {
    let data = borsh::to_vec(&(
        3u64,
        2u16,
        "1".to_string(),
        0u8,
        (10i64, 20i128, -3i8, true, [0u8; 32]),
        vec![1u32, 2, 3],
    ))
    .unwrap();
    let fields = vec![
        SupportedType::U64,
        SupportedType::U16,
        SupportedType::String,
        SupportedType::U8,
        SupportedType::Defined("ChildStruct".to_string(), child_fields()),
        SupportedType::Vec(Box::new(SupportedType::U32)),
    ];
    let offsets: Vec<usize> = (0..6).map(|i| field_offset(&fields, &data, i).unwrap()).collect();
    assert_eq!(offsets, vec![0, 8, 10, 15, 16, 74]);
    let whole = SupportedType::Defined("Struct".to_string(), fields);
    assert_eq!(whole.read_len(&data, 0), Some(data.len()));
    assert_eq!(data.len(), 90);

    assert_eq!(<u64 as BorshAccessor>::convert(&data[0..]), 3);
    assert_eq!(<u16 as BorshAccessor>::convert(&data[8..]), 2);
    assert_eq!(<&str as BorshAccessor>::convert(&data[10..15]), "1");
    assert_eq!(<u8 as BorshAccessor>::convert(&data[15..]), 0);
    let child = child_fields();
    let child_at = |i: usize| 16 + field_offset(&child, &data[16..], i).unwrap();
    assert_eq!(<i64 as BorshAccessor>::convert(&data[child_at(0)..]), 10);
    assert_eq!(<i128 as BorshAccessor>::convert(&data[child_at(1)..]), 20);
    assert_eq!(<i8 as BorshAccessor>::convert(&data[child_at(2)..]), -3);
    assert!(<bool as BorshAccessor>::convert(&data[child_at(3)..]));
    assert_eq!(<&[u8; 32] as BorshAccessor>::convert(&data[child_at(4)..]), &[0u8; 32]);
    let element_6: BorshVector<'_, u32> = BorshVector::new(&data[74..]);
    assert_eq!(element_6.get(..), vec![1, 2, 3]);
}

#[test]
fn test_complex_type() {
    let data = borsh::to_vec(&(vec!["Random".to_string(), "Random2".to_string()], [1u32, 2, 3, 4])).unwrap();
    let complex_fields = || {
        vec![
            SupportedType::Vec(Box::new(SupportedType::String)),
            SupportedType::Array(Box::new(SupportedType::U32), 4),
        ]
    };
    let fields = complex_fields();
    let whole = SupportedType::Defined("ComplexType".to_string(), complex_fields());
    assert_eq!(whole.read_len(&data, 0), Some(data.len()));
    let element2_at = field_offset(&fields, &data, 1).unwrap();
    assert_eq!(element2_at, 4 + (4 + 6) + (4 + 7));
    let element1: BorshVector<'_, &str> = BorshVector::new(&data);
    assert_eq!(element1.at(0).unwrap(), "Random");
    assert_eq!(element1.at(1).unwrap(), "Random2");
    assert_eq!(element1.get(..), vec!["Random", "Random2"]);
    let element2: Vec<u32> = (0..4).map(|i| <u32 as BorshAccessor>::convert(&data[element2_at + 4 * i..])).collect();
    assert_eq!(element2, vec![1, 2, 3, 4]);
}

#[test]
fn vector_get_takes_every_kind_of_range() {
    let data = borsh::to_vec(&vec!["j'aime", "les", "pâtes"]).unwrap();
    let vector: BorshVector<'_, &str> = BorshVector::new(&data);
    assert_eq!(vector.get(1..2), vec!["les"]);
    assert_eq!(vector.get(2..), vec!["pâtes"]);
    assert_eq!(vector.get(0..), vec!["j'aime", "les", "pâtes"]);
    assert_eq!(vector.get(5..), Vec::<&str>::new());
    assert_eq!(vector.get(..2), vec!["j'aime", "les"]);
    assert_eq!(vector.get(..0), Vec::<&str>::new());
    assert_eq!(vector.get(..=1), vec!["j'aime", "les"]);
    assert_eq!(vector.get(..=7), vec!["j'aime", "les", "pâtes"]);
    assert_eq!(vector.get(1..=2), vec!["les", "pâtes"]);
}

use typhoon::read_expr::{field_accessors, Advance, OutputType, ReadExpr, ReadStep};

#[test]
fn generated_reads_of_fields_and_elements() {
    assert_eq!(
        SupportedType::U16.gen_read_expr(false),
        ReadExpr { step: ReadStep::Convert, advance: None, output: OutputType::U16 }
    );
    assert_eq!(
        SupportedType::U16.gen_read_expr(true),
        ReadExpr { step: ReadStep::Convert, advance: Some(Advance::By(2)), output: OutputType::U16 }
    );
    assert_eq!(
        SupportedType::String.gen_read_expr(true),
        ReadExpr { step: ReadStep::LengthPrefixedStr, advance: Some(Advance::ByStrLen), output: OutputType::Str }
    );
    assert_eq!(SupportedType::Pubkey.gen_read_expr(true).advance, Some(Advance::By(32)));
    assert_eq!(SupportedType::Pubkey.gen_read_expr(false).output, OutputType::PubkeyRef);
    let option = SupportedType::Option(Box::new(SupportedType::U64)).gen_read_expr(false);
    assert_eq!(option.step, ReadStep::Nothing);
    assert_eq!(option.output, OutputType::Option(Box::new(OutputType::U64)));
    let vector = SupportedType::Vec(Box::new(SupportedType::String)).gen_read_expr(false);
    assert_eq!(vector.step, ReadStep::ConvertVector);
    assert_eq!(vector.output, OutputType::Vector(Box::new(OutputType::Str)));
    let array = SupportedType::Array(Box::new(SupportedType::U32), 4).gen_read_expr(false);
    assert_eq!(
        array.step,
        ReadStep::Repeat(
            Box::new(ReadExpr { step: ReadStep::Convert, advance: Some(Advance::By(4)), output: OutputType::U32 }),
            4
        )
    );
    assert_eq!(array.output, OutputType::Array(Box::new(OutputType::U32), 4));
    let defined = SupportedType::Defined("Child".to_string(), vec![SupportedType::U8]).gen_read_expr(true);
    assert_eq!(defined.advance, Some(Advance::ByTotalLen));
    assert_eq!(defined.output, OutputType::DefinedRef);
}

#[test]
fn accessors_of_named_and_unnamed_fields() {
    let fields = vec![
        (Some("amount".to_string()), SupportedType::U64),
        (None, SupportedType::Option(Box::new(SupportedType::U8))),
        (None, SupportedType::String),
    ];
    let accessors = field_accessors(&fields);
    let names: Vec<&str> = accessors.iter().map(|a| a.name.as_str()).collect();
    assert_eq!(names, vec!["amount", "field_1", "field_2"]);
    let reads: Vec<bool> = accessors.iter().map(|a| a.has_read).collect();
    assert_eq!(reads, vec![true, false, true]);
    assert_eq!(accessors[2].read.output, OutputType::Str);
}

#[test]
fn element_reads_move_to_the_layout_end() {
    let data = borsh::to_vec(&("abcd", (1u8, "xy"))).unwrap();
    assert_eq!(SupportedType::String.read_len(&data, 0), Some(4 + 4));
    let child = SupportedType::Defined("C".to_string(), vec![SupportedType::U8, SupportedType::String]);
    assert_eq!(child.gen_read_expr(true).advance, Some(Advance::ByTotalLen));
    assert_eq!(child.read_len(&data, 8), Some(8 + 1 + 4 + 2));
}
