use std::collections::HashMap;

use nbt_rs::{
    parse_nbt,
    types::{NbtString, NbtTag},
};

fn name(buf: &mut Vec<u8>, s: &str) {
    buf.extend_from_slice(&(s.len() as u16).to_be_bytes());
    buf.extend_from_slice(s.as_bytes());
}

/// A small document shaped like a level file: a root compound holding a `Data`
/// compound with a tag of every kind.
fn level_like() -> Vec<u8> {
    let mut b = vec![0x0A];
    name(&mut b, "");
    b.push(0x0A);
    name(&mut b, "Data");
    b.push(0x01);
    name(&mut b, "Difficulty");
    b.push(2);
    b.push(0x02);
    name(&mut b, "Version");
    b.extend_from_slice(&19133i16.to_be_bytes());
    b.push(0x03);
    name(&mut b, "SpawnX");
    b.extend_from_slice(&(-120i32).to_be_bytes());
    b.push(0x04);
    name(&mut b, "Time");
    b.extend_from_slice(&123456789012i64.to_be_bytes());
    b.push(0x05);
    name(&mut b, "BorderWarning");
    b.extend_from_slice(&5.0f32.to_be_bytes());
    b.push(0x06);
    name(&mut b, "BorderSize");
    b.extend_from_slice(&59999968.0f64.to_be_bytes());
    b.push(0x07);
    name(&mut b, "Seed");
    b.extend_from_slice(&3i32.to_be_bytes());
    b.extend_from_slice(&[0x01, 0xff, 0x80]);
    b.push(0x08);
    name(&mut b, "LevelName");
    name(&mut b, "New World");
    b.push(0x09);
    name(&mut b, "ServerBrands");
    b.push(0x08);
    b.extend_from_slice(&1i32.to_be_bytes());
    name(&mut b, "fabric");
    b.push(0x09);
    name(&mut b, "Empty");
    b.extend_from_slice(&[0x00, 0x00, 0x00, 0x00, 0x00]);
    b.push(0x09);
    name(&mut b, "Players");
    b.push(0x0A);
    b.extend_from_slice(&2i32.to_be_bytes());
    b.push(0x01);
    name(&mut b, "Health");
    b.push(20);
    b.push(0x00);
    b.push(0x00);
    b.push(0x09);
    name(&mut b, "Nested");
    b.push(0x09);
    b.extend_from_slice(&1i32.to_be_bytes());
    b.push(0x03);
    b.extend_from_slice(&2i32.to_be_bytes());
    b.extend_from_slice(&7i32.to_be_bytes());
    b.extend_from_slice(&(-7i32).to_be_bytes());
    b.push(0x0B);
    name(&mut b, "DataPacks");
    b.extend_from_slice(&2i32.to_be_bytes());
    b.extend_from_slice(&1i32.to_be_bytes());
    b.extend_from_slice(&i32::MIN.to_be_bytes());
    b.push(0x0C);
    name(&mut b, "Seeds");
    b.extend_from_slice(&1i32.to_be_bytes());
    b.extend_from_slice(&i64::MAX.to_be_bytes());
    b.push(0x00);
    b.push(0x00);
    b
}

#[test]
fn test_parse_level_dat() {
    let data = level_like();
    let root = parse_nbt(&data);
    assert!(root.is_ok())
}

#[test]
fn test_parse_simple_compound() {
    let data = &[
        0x0A, 0x00, 0x00, 0x01, 0x00, 0x01, b'a', 0x00, 0x01, 0x00, 0x01, b'b', 0x01, 0x00,
    ];

    let (name, root) = parse_nbt(data).unwrap();
    let root: HashMap<NbtString, NbtTag> = root.into();
    assert!(name.is_empty());
    let a = *root.get("a").unwrap().as_byte().unwrap();
    let b = *root.get("b").unwrap().as_byte().unwrap();
    assert_eq!(a, 0x00);
    assert_eq!(b, 0x01);
}

#[test]
fn test_parse_level_like_values() {
    let data = level_like();
    let (root_name, root) = parse_nbt(&data).unwrap();
    assert!(root_name.is_empty());
    let level = root.get("Data").unwrap().as_compound().unwrap();
    assert_eq!(level.get("Difficulty"), Some(&NbtTag::Byte(2)));
    assert_eq!(*level.get("Version").unwrap().as_short().unwrap(), 19133);
    assert_eq!(*level.get("SpawnX").unwrap().as_int().unwrap(), -120);
    assert_eq!(*level.get("Time").unwrap().as_long().unwrap(), 123456789012);
    let warning = *level.get("BorderWarning").unwrap().as_float().unwrap();
    assert_eq!(f32::from_bits(warning.to_bits()), 5.0f32);
    let size = *level.get("BorderSize").unwrap().as_double().unwrap();
    assert_eq!(f64::from_bits(size.to_bits()), 59999968.0f64);
    let seed = level.get("Seed").unwrap().as_byte_array().unwrap();
    assert_eq!(&**seed, &[1i8, -1, -128]);
    let level_name = level.get("LevelName").unwrap().as_string().unwrap();
    assert_eq!(&**level_name, "New World");
    let brands = level.get("ServerBrands").unwrap().as_list().unwrap();
    let brands = brands.as_string().unwrap();
    assert_eq!(brands.len(), 1);
    assert_eq!(&*brands[0], "fabric");
    assert!(level.get("Empty").unwrap().as_list().unwrap().is_end());
    let players = level.get("Players").unwrap().as_list().unwrap().as_compound().unwrap();
    assert_eq!(players.len(), 2);
    assert_eq!(players[0].get("Health"), Some(&NbtTag::Byte(20)));
    assert_eq!(players[1].get("Health"), None);
    let nested = level.get("Nested").unwrap().as_list().unwrap().as_list().unwrap();
    assert_eq!(&**nested[0].as_int().unwrap(), &[7, -7]);
    let packs = level.get("DataPacks").unwrap().as_int_array().unwrap();
    assert_eq!(&**packs, &[1, i32::MIN]);
    let seeds = level.get("Seeds").unwrap().as_long_array().unwrap();
    assert_eq!(&**seeds, &[i64::MAX]);
    assert_eq!(level.get("Missing"), None);
}

#[test]
fn test_parse_end_list_ignores_length() {
    // a list of kind End whose count is not zero holds nothing
    let data = &[
        0x0A, 0x00, 0x00, 0x09, 0x00, 0x01, b'l', 0x00, 0x00, 0x00, 0x00, 0x03, 0x00,
    ];
    let (_, root) = parse_nbt(data).unwrap();
    assert!(root.get("l").unwrap().as_list().unwrap().is_end());
}

#[test]
fn test_parse_negative_string_length_reads_as_unsigned() {
    // a string length of 0x8000 is read as 32768 bytes, which are missing here
    let data = &[0x0A, 0x00, 0x00, 0x08, 0x00, 0x00, 0x80, 0x00, b'x', 0x00];
    assert!(parse_nbt(data).is_err());
}
