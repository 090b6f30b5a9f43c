use std::collections::HashMap;

use nbt_rs::parse_nbt;
use nbt_rs::serializer::serialize_nbt;
use nbt_rs::traits::{NbtParse, NbtSerialize};
use nbt_rs::types::{F32Bits, F64Bits, NbtArray, NbtCompound, NbtList, NbtString, NbtTag, NbtTagId};

fn text(s: &str) -> NbtString {
    s.to_owned().try_into().unwrap()
}

fn compound_of(entries: Vec<(NbtString, NbtTag)>) -> NbtCompound {
    let map: HashMap<NbtString, NbtTag> = entries.into_iter().collect();
    map.into()
}

#[test]
fn test_tag_id_bytes() {
    for b in 0u8..=12 {
        let id = NbtTagId::try_from(b).unwrap();
        assert_eq!(id.as_byte(), b);
    }
    assert!(NbtTagId::try_from(13u8).is_err());
    assert!(NbtTagId::try_from(0xffu8).is_err());
    assert_eq!(NbtTag::Compound(compound_of(vec![])).tag_id(), NbtTagId::Compound);
    assert_eq!(NbtTag::Float(F32Bits::from_bits(0)).tag_id().as_byte(), 5);
}

#[test]
fn test_numbers_are_big_endian() {
    let mut buf = Vec::new();
    0x0102i16.serialize_nbt_payload(&mut buf);
    (-2i32).serialize_nbt_payload(&mut buf);
    0x0102030405060708i64.serialize_nbt_payload(&mut buf);
    (-1i8).serialize_nbt_payload(&mut buf);
    0xfffeu16.serialize_nbt_payload(&mut buf);
    F32Bits::from_bits(1.5f32.to_bits()).serialize_nbt_payload(&mut buf);
    assert_eq!(
        buf,
        vec![
            0x01, 0x02, 0xff, 0xff, 0xff, 0xfe, 1, 2, 3, 4, 5, 6, 7, 8, 0xff, 0xff, 0xfe, 0x3f,
            0xc0, 0x00, 0x00
        ]
    );
    let (v, rest) = i32::try_parse_nbt_payload(&[0xff, 0xff, 0xff, 0xfe, 9]).unwrap();
    assert_eq!(v, -2);
    assert_eq!(rest, &[9]);
    let (v, rest) = i64::try_parse_nbt_payload(&[1, 2, 3, 4, 5, 6, 7, 8]).unwrap();
    assert_eq!(v, 0x0102030405060708);
    assert!(rest.is_empty());
    assert!(i16::try_parse_nbt_payload(&[1]).is_err());
}

#[test]
fn test_byte_array_bits() {
    let array: NbtArray<i8> = vec![-1i8, 0, 127, -128].try_into().unwrap();
    let mut buf = Vec::new();
    array.serialize_nbt_payload(&mut buf);
    assert_eq!(buf, vec![0, 0, 0, 4, 0xff, 0x00, 0x7f, 0x80]);
    let (back, rest) = NbtArray::<i8>::try_parse_nbt_payload(&buf).unwrap();
    assert_eq!(back, array);
    assert!(rest.is_empty());
}

#[test]
fn test_string_bytes() {
    let s = text("héllo");
    let mut buf = Vec::new();
    s.serialize_nbt_payload(&mut buf);
    assert_eq!(buf, vec![0x00, 0x06, b'h', 0xc3, 0xa9, b'l', b'l', b'o']);
    let (back, rest) = NbtString::try_parse_nbt_payload(&buf).unwrap();
    assert_eq!(back, s);
    assert!(rest.is_empty());
    assert!(s == *"héllo");
    assert!(*"héllo" == s);
    assert!(!(s == *"hello"));
}

#[test]
fn test_write_then_read_every_kind() {
    let inner = compound_of(vec![(text("x"), NbtTag::Int(1))]);
    let entries = vec![
        (text("byte"), NbtTag::Byte(-5)),
        (text("short"), NbtTag::Short(-300)),
        (text("int"), NbtTag::Int(70000)),
        (text("long"), NbtTag::Long(-1)),
        (text("float"), NbtTag::Float(F32Bits::from_bits(2.5f32.to_bits()))),
        (text("double"), NbtTag::Double(F64Bits::from_bits((-0.25f64).to_bits()))),
        (text("bytes"), NbtTag::ByteArray(vec![1i8, -1].try_into().unwrap())),
        (text("string"), NbtTag::String(text("ünïcode"))),
        (
            text("shorts"),
            NbtTag::List(NbtList::Short(vec![1i16, -2].try_into().unwrap())),
        ),
        (
            text("floats"),
            NbtTag::List(NbtList::Float(vec![F32Bits::from_bits(1.0f32.to_bits())].try_into().unwrap())),
        ),
        (
            text("strings"),
            NbtTag::List(NbtList::String(vec![text("a"), text("")].try_into().unwrap())),
        ),
        (
            text("lists"),
            NbtTag::List(NbtList::List(
                vec![NbtList::End, NbtList::Long(vec![9i64].try_into().unwrap())]
                    .try_into()
                    .unwrap(),
            )),
        ),
        (
            text("compounds"),
            NbtTag::List(NbtList::Compound(vec![inner.clone()].try_into().unwrap())),
        ),
        (text("nested"), NbtTag::Compound(inner)),
        (text("ints"), NbtTag::IntArray(vec![i32::MAX, i32::MIN].try_into().unwrap())),
        (text("longs"), NbtTag::LongArray(vec![i64::MIN].try_into().unwrap())),
    ];
    let root = compound_of(entries);
    let name = text("root");
    let bytes = serialize_nbt(&name, &root);
    let (name2, root2) = parse_nbt(&bytes).unwrap();
    assert_eq!(name2, name);
    assert_eq!(root2, root);
    assert_eq!(serialize_nbt(&name2, &root2), bytes);
}

#[test]
fn test_compound_from_map_and_back() {
    let root = compound_of(vec![(text("a"), NbtTag::Byte(1)), (text("b"), NbtTag::Short(2))]);
    assert_eq!(root.get("a"), Some(&NbtTag::Byte(1)));
    assert_eq!(root.get("b"), Some(&NbtTag::Short(2)));
    assert_eq!(root.get("c"), None);
    let entries: Vec<(NbtString, NbtTag)> = root.clone().into();
    assert_eq!(entries.len(), 2);
    let map: HashMap<NbtString, NbtTag> = root.into();
    assert_eq!(map.get("b"), Some(&NbtTag::Short(2)));
}

#[test]
fn test_accessors() {
    let mut tag = NbtTag::Int(5);
    assert!(tag.is_int());
    assert!(!tag.is_long());
    assert_eq!(tag.as_int(), Some(&5));
    assert_eq!(tag.as_short(), None);
    *tag.as_int_mut().unwrap() = 6;
    assert_eq!(tag, NbtTag::Int(6));
    assert!(tag.as_byte_mut().is_none());
    assert_eq!(tag.clone().into_int(), Ok(6));
    assert_eq!(tag.clone().into_long(), Err(NbtTag::Int(6)));
    assert!(NbtTag::End.is_end());
    let list = NbtList::Byte(vec![1i8].try_into().unwrap());
    assert!(list.is_byte());
    assert_eq!(&**list.as_byte().unwrap(), &[1i8]);
    assert!(list.as_short().is_none());
    assert!(NbtList::End.is_end());
    let array = list.into_byte().unwrap();
    assert_eq!(Vec::from(array), vec![1i8]);
}

#[test]
fn test_clone_keeps_content() {
    let tag = NbtTag::List(NbtList::Compound(
        vec![compound_of(vec![(text("k"), NbtTag::String(text("v")))])]
            .try_into()
            .unwrap(),
    ));
    let copy = tag.clone();
    assert_eq!(copy, tag);
}

#[test]
fn test_end_entry_is_left_out() {
    // a compound cannot hold an End tag: the conversion from a map leaves it out
    let root = compound_of(vec![(text("e"), NbtTag::End), (text("a"), NbtTag::Int(1))]);
    let entries: Vec<(NbtString, NbtTag)> = root.clone().into();
    assert_eq!(entries, vec![(text("a"), NbtTag::Int(1))]);
    let bytes = serialize_nbt(&text(""), &root);
    assert_eq!(
        bytes,
        vec![0x0A, 0x00, 0x00, 0x03, 0x00, 0x01, b'a', 0x00, 0x00, 0x00, 0x01, 0x00]
    );
    let (name, back) = parse_nbt(&bytes).unwrap();
    assert_eq!(&*name, "");
    assert_eq!(back, root);
}

#[test]
fn test_serialize_compounds_from_maps() {
    let e = NbtCompound::from(HashMap::new());
    assert_eq!(serialize_nbt(&text(""), &e), vec![0x0A, 0x00, 0x00, 0x00]);
    let c = NbtCompound::from(HashMap::from([(text("a"), NbtTag::Int(1))]));
    assert_eq!(
        serialize_nbt(&text("hi"), &c),
        vec![0x0A, 0x00, 0x02, 0x68, 0x69, 0x03, 0x00, 0x01, 0x61, 0x00, 0x00, 0x00, 0x01, 0x00]
    );
}

#[test]
fn test_map_to_compound_and_back() {
    let mut m: HashMap<NbtString, NbtTag> = HashMap::new();
    m.insert(text("x"), NbtTag::Byte(3));
    m.insert(text("y"), NbtTag::String(text("z")));
    m.insert(text("w"), NbtTag::Double(F64Bits::from_bits(0.25f64.to_bits())));
    let c = NbtCompound::from(m.clone());
    let entries: Vec<(NbtString, NbtTag)> = c.clone().into();
    assert_eq!(entries.len(), m.len());
    assert_eq!(HashMap::<NbtString, NbtTag>::from(c), m);
    let mut with_end = m.clone();
    with_end.insert(text("end"), NbtTag::End);
    assert_eq!(HashMap::<NbtString, NbtTag>::from(NbtCompound::from(with_end)), m);
}

#[test]
fn test_long_string_round_trip() {
    let s = text(&"a".repeat(40000));
    let mut buf = Vec::new();
    s.serialize_nbt_payload(&mut buf);
    assert_eq!(&buf[..2], &[0x9C, 0x40]);
    buf.extend_from_slice(&[7, 8]);
    let (back, rest) = NbtString::try_parse_nbt_payload(&buf).unwrap();
    assert_eq!(back, s);
    assert_eq!(rest, &[7, 8]);
}

#[test]
fn test_leftover_after_document() {
    let mut data = vec![0x0A, 0x00, 0x00, 0x01, 0x00, 0x01, b'a', 0x05, 0x00];
    assert!(parse_nbt(&data).is_ok());
    data.extend_from_slice(&[1, 2, 3]);
    assert_eq!(parse_nbt(&data).unwrap_err(), nbt_rs::error::ParseError::LeftoverData(3));
}

#[test]
fn test_read_ignores_bytes_after_value() {
    let (v, rest) = nbt_rs::parser::parse_int_array(&[0, 0, 0, 1, 0, 0, 0, 9, 0xff]).unwrap();
    assert_eq!(&*v, &[9]);
    assert_eq!(rest, &[0xff]);
    let (s, rest) = nbt_rs::parser::parse_string(&[0, 1, b'q', 1, 2]).unwrap();
    assert_eq!(&*s, "q");
    assert_eq!(rest, &[1, 2]);
}

#[test]
fn test_clone_of_string_and_array() {
    let s = text("héllo");
    assert_eq!(s.clone(), s);
    let a: NbtArray<i32> = vec![1, 2, 3].try_into().unwrap();
    let b = a.clone();
    assert_eq!(&*b, &[1, 2, 3]);
}

#[test]
fn test_floats_compare_as_floats() {
    let f = |x: f32| F32Bits::from_bits(x.to_bits());
    let d = |x: f64| F64Bits::from_bits(x.to_bits());
    assert_eq!(f(0.0), f(-0.0));
    assert_ne!(f(f32::NAN), f(f32::NAN));
    assert!(f(-1.5) < f(-0.5));
    assert!(f(-0.5) < f(0.0));
    assert!(f(1.0) < f(2.0));
    assert_eq!(f(f32::NAN).partial_cmp(&f(1.0)), None);
    assert_eq!(d(0.0), d(-0.0));
    assert_ne!(d(f64::NAN), d(f64::NAN));
    assert!(d(-3.0) < d(2.0));
    assert!(d(2.0) > d(1.0));
    assert_eq!(NbtTag::Float(f(0.0)), NbtTag::Float(f(-0.0)));
    assert_ne!(NbtTag::Double(d(f64::NAN)), NbtTag::Double(d(f64::NAN)));
    // the bits are kept as they are: -0.0 is written as -0.0
    let mut buf = Vec::new();
    f(-0.0).serialize_nbt_payload(&mut buf);
    assert_eq!(buf, vec![0x80, 0, 0, 0]);
}
