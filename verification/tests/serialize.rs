use nbt_rs::{
    parser::parse_nbt,
    serializer::serialize_nbt,
    types::{NbtArray, NbtString},
};

fn name(buf: &mut Vec<u8>, s: &str) {
    buf.extend_from_slice(&(s.len() as u16).to_be_bytes());
    buf.extend_from_slice(s.as_bytes());
}

fn level_like() -> Vec<u8> {
    let mut b = vec![0x0A];
    name(&mut b, "");
    b.push(0x0A);
    name(&mut b, "Data");
    b.push(0x01);
    name(&mut b, "Difficulty");
    b.push(2);
    b.push(0x05);
    name(&mut b, "BorderWarning");
    b.extend_from_slice(&5.0f32.to_be_bytes());
    b.push(0x09);
    name(&mut b, "ServerBrands");
    b.push(0x08);
    b.extend_from_slice(&1i32.to_be_bytes());
    name(&mut b, "fabric");
    b.push(0x09);
    name(&mut b, "Bytes");
    b.push(0x01);
    b.extend_from_slice(&2i32.to_be_bytes());
    b.extend_from_slice(&[0x80, 0x7f]);
    b.push(0x0B);
    name(&mut b, "DataPacks");
    b.extend_from_slice(&1i32.to_be_bytes());
    b.extend_from_slice(&(-1i32).to_be_bytes());
    b.push(0x00);
    b.push(0x00);
    b
}

#[test]
fn test_reparse_level_dat() {
    let data = level_like();
    let (name, parsed) = parse_nbt(&data).unwrap();
    let serialized = serialize_nbt(&name, &parsed);
    let (new_name, new_parsed) = parse_nbt(&serialized).unwrap();
    assert_eq!(name, new_name);
    assert_eq!(parsed, new_parsed);
}

#[test]
fn test_serialize_gives_back_the_bytes_read() {
    let data = level_like();
    let (name, parsed) = parse_nbt(&data).unwrap();
    assert_eq!(serialize_nbt(&name, &parsed), data);
}

#[test]
fn test_serialize_empty_compound() {
    let data = &[0x0A, 0x00, 0x02, b'h', b'i', 0x00];
    let (name, root) = parse_nbt(data).unwrap();
    assert_eq!(&*name, "hi");
    assert_eq!(serialize_nbt(&name, &root), data.to_vec());
}

#[test]
fn test_serialize_end_list_writes_zero_length() {
    // a list of kind End with count 3 reads as an empty list, written with count 0
    let data = &[
        0x0A, 0x00, 0x00, 0x09, 0x00, 0x01, b'l', 0x00, 0x00, 0x00, 0x00, 0x03, 0x00,
    ];
    let (name, root) = parse_nbt(data).unwrap();
    let written = serialize_nbt(&name, &root);
    assert_eq!(
        written,
        vec![0x0A, 0x00, 0x00, 0x09, 0x00, 0x01, b'l', 0x00, 0x00, 0x00, 0x00, 0x00, 0x00]
    );
}

#[test]
fn test_string_validation() {
    let ok: Result<NbtString, _> = "abc".to_owned().try_into();
    assert_eq!(&*ok.unwrap(), "abc");
    let long = "é".repeat(32768);
    let err: Result<NbtString, _> = long.clone().try_into();
    let (e, back) = err.unwrap_err();
    assert_eq!(e, nbt_rs::error::ValidationError::StringTooLong(65536));
    assert_eq!(back, long);
    let exact = "a".repeat(65535);
    let fits: Result<NbtString, _> = exact.try_into();
    assert!(fits.is_ok());
}

#[test]
fn test_array_validation() {
    let array: NbtArray<i8> = vec![0i8, 1i8, 2i8].try_into().unwrap();
    assert_eq!(&*array, &[0, 1, 2]);
    let back: Vec<i8> = array.into();
    assert_eq!(back, vec![0, 1, 2]);
}

fn every_kind() -> Vec<u8> {
    let mut b = vec![0x0A];
    name(&mut b, "root");
    b.push(0x02);
    name(&mut b, "short");
    b.extend_from_slice(&(-2i16).to_be_bytes());
    b.push(0x03);
    name(&mut b, "int");
    b.extend_from_slice(&123456i32.to_be_bytes());
    b.push(0x04);
    name(&mut b, "long");
    b.extend_from_slice(&(-9i64).to_be_bytes());
    b.push(0x06);
    name(&mut b, "double");
    b.extend_from_slice(&0.5f64.to_be_bytes());
    b.push(0x07);
    name(&mut b, "bytes");
    b.extend_from_slice(&3i32.to_be_bytes());
    b.extend_from_slice(&[1, 0xff, 7]);
    b.push(0x08);
    name(&mut b, "text");
    name(&mut b, "héllo");
    b.push(0x0C);
    name(&mut b, "longs");
    b.extend_from_slice(&2i32.to_be_bytes());
    b.extend_from_slice(&1i64.to_be_bytes());
    b.extend_from_slice(&i64::MIN.to_be_bytes());
    b.push(0x09);
    name(&mut b, "empty");
    b.push(0x00);
    b.extend_from_slice(&0i32.to_be_bytes());
    b.push(0x09);
    name(&mut b, "lists");
    b.push(0x09);
    b.extend_from_slice(&2i32.to_be_bytes());
    b.push(0x03);
    b.extend_from_slice(&1i32.to_be_bytes());
    b.extend_from_slice(&42i32.to_be_bytes());
    b.push(0x04);
    b.extend_from_slice(&0i32.to_be_bytes());
    b.push(0x09);
    name(&mut b, "compounds");
    b.push(0x0A);
    b.extend_from_slice(&1i32.to_be_bytes());
    b.push(0x01);
    name(&mut b, "x");
    b.push(5);
    b.push(0x00);
    b.push(0x00);
    b
}

#[test]
fn test_serialize_gives_back_every_kind() {
    let data = every_kind();
    let (name, parsed) = parse_nbt(&data).unwrap();
    assert_eq!(&*name, "root");
    assert_eq!(serialize_nbt(&name, &parsed), data);
}
