use binprot::{
    BinProtRead, BinProtSize, BinProtWrite, BufferWithLen, Bytes, Error, Float64, IoErrorKind,
    MapKey, Nat0, Source, Table, WithLen,
};

fn bytes_of<T: BinProtWrite>(t: &T) -> Vec<u8> {
    let mut w = vec![0xaa];
    t.binprot_write(&mut w);
    // What was there stays there.
    assert_eq!(w[0], 0xaa);
    w.split_off(1)
}

fn read<T: BinProtRead>(bytes: &[u8]) -> Result<T, Error> {
    T::binprot_read(&mut Source::new(bytes))
}

fn roundtrip<T: BinProtRead + BinProtWrite + PartialEq + std::fmt::Debug>(t: T, expected: &[u8]) {
    let mut bytes = bytes_of(&t);
    assert_eq!(bytes, expected);
    assert_eq!(t.binprot_size(), expected.len());
    bytes.extend_from_slice(&[9, 9]);
    let mut source = Source::new(&bytes);
    assert_eq!(T::binprot_read(&mut source).unwrap(), t);
    assert_eq!(source.remaining(), 2);
}

#[test]
fn unit_bool_option() {
    roundtrip((), &[0]);
    roundtrip(true, &[1]);
    roundtrip(false, &[0]);
    roundtrip(None::<bool>, &[0]);
    roundtrip(Some(true), &[1, 1]);
    roundtrip(Some(Some(-1i64)), &[1, 1, 255, 255]);
    roundtrip(Box::new(Some(5i64)), &[1, 5]);
}

#[test]
fn unexpected_first_bytes() {
    assert!(matches!(read::<()>(&[3]), Err(Error::UnexpectedValueForUnit(3))));
    assert!(matches!(read::<bool>(&[2]), Err(Error::UnexpectedValueForBool(2))));
    assert!(matches!(read::<Option<bool>>(&[255]), Err(Error::UnexpectedValueForOption(255))));
    assert!(matches!(read::<Option<bool>>(&[1, 2]), Err(Error::UnexpectedValueForBool(2))));
    assert!(matches!(read::<()>(&[]), Err(Error::IoError(IoErrorKind::UnexpectedEof))));
    assert!(matches!(read::<bool>(&[]), Err(Error::IoError(IoErrorKind::UnexpectedEof))));
    assert!(matches!(read::<Option<i64>>(&[1]), Err(Error::IoError(IoErrorKind::UnexpectedEof))));
}

#[test]
fn floats_are_eight_bytes_low_byte_first() {
    roundtrip(Float64(3.141592f64.to_bits()), &[122, 0, 139, 252, 250, 33, 9, 64]);
    roundtrip(Float64(0f64.to_bits()), &[0; 8]);
    roundtrip(Float64(f64::NAN.to_bits()), &f64::NAN.to_le_bytes());
    roundtrip(Float64(u64::MAX), &[255; 8]);
    assert!(matches!(
        read::<Float64>(&[1, 2, 3, 4, 5, 6, 7]),
        Err(Error::IoError(IoErrorKind::UnexpectedEof))
    ));
}

#[test]
fn narrow_integers() {
    roundtrip(-1i32, &[255, 255]);
    roundtrip(i32::MIN, &[0xfd, 0, 0, 0, 0x80]);
    roundtrip(u32::MAX, &[0xfc, 255, 255, 255, 255, 0, 0, 0, 0]);
    roundtrip(i16::MIN, &[0xfe, 0, 0x80]);
    roundtrip(u16::MAX, &[0xfd, 255, 255, 0, 0]);
    roundtrip(i8::MIN, &[0xff, 0x80]);
    roundtrip(200u8, &[0xfe, 200, 0]);
    roundtrip(Nat0(200), &[0xfe, 200, 0]);
    roundtrip(Nat0(u64::MAX), &[0xfc, 255, 255, 255, 255, 255, 255, 255, 255]);
}

#[test]
fn narrow_integers_refuse_what_does_not_fit() {
    assert!(matches!(read::<u8>(&[0xfe, 0, 1]), Err(Error::TryFromIntError)));
    assert!(matches!(read::<u8>(&[0xff, 0xff]), Err(Error::TryFromIntError)));
    assert!(matches!(read::<i8>(&[0xfe, 0x80, 0]), Err(Error::TryFromIntError)));
    assert!(matches!(read::<u16>(&[0xfd, 0, 0, 1, 0]), Err(Error::TryFromIntError)));
    assert!(matches!(read::<i16>(&[0xfd, 0, 0x80, 0, 0]), Err(Error::TryFromIntError)));
    assert!(matches!(
        read::<u32>(&[0xfc, 0, 0, 0, 0, 1, 0, 0, 0]),
        Err(Error::TryFromIntError)
    ));
    assert!(matches!(
        read::<i32>(&[0xfc, 0, 0, 0, 0x80, 0, 0, 0, 0]),
        Err(Error::TryFromIntError)
    ));
    assert!(matches!(read::<u32>(&[0xff, 0x80]), Err(Error::TryFromIntError)));
    assert_eq!(read::<u8>(&[0xfd, 255, 0, 0, 0]).unwrap(), 255);
    assert!(matches!(read::<u8>(&[0xff, 1]), Err(Error::IoError(IoErrorKind::InvalidData))));
}

#[test]
fn strings_and_buffers() {
    roundtrip("egg".to_string(), &[3, 101, 103, 103]);
    roundtrip(String::new(), &[0]);
    roundtrip("é€".to_string(), &[5, 0xc3, 0xa9, 0xe2, 0x82, 0xac]);
    roundtrip(Bytes(vec![0xff, 0xfe]), &[2, 0xff, 0xfe]);
    roundtrip(BufferWithLen(vec![1, 2, 3]), &[3, 1, 2, 3]);
    assert_eq!(bytes_of(&"egg"), [3, 101, 103, 103]);
    let long = "x".repeat(300);
    let bytes = bytes_of(&long);
    assert_eq!(&bytes[..3], [0xfe, 44, 1]);
    assert_eq!(bytes.len(), 303);
    assert_eq!(read::<String>(&bytes).unwrap(), long);
}

#[test]
fn strings_must_be_utf8() {
    assert!(matches!(read::<String>(&[2, 0xff, 0xfe]), Err(Error::Utf8Error)));
    assert!(matches!(read::<String>(&[2, 0xc3, 0x28]), Err(Error::Utf8Error)));
    // An encoding that is longer than need be.
    assert!(matches!(read::<String>(&[2, 0xc0, 0x80]), Err(Error::Utf8Error)));
    // Half of a pair of surrogates.
    assert!(matches!(read::<String>(&[3, 0xed, 0xa0, 0x80]), Err(Error::Utf8Error)));
    assert_eq!(read::<Bytes>(&[2, 0xff, 0xfe]).unwrap(), Bytes(vec![0xff, 0xfe]));
    assert!(matches!(
        read::<String>(&[3, 101, 103]),
        Err(Error::IoError(IoErrorKind::UnexpectedEof))
    ));
    assert!(matches!(
        read::<Bytes>(&[0xfc, 255, 255, 255, 255, 255, 255, 255, 255, 1]),
        Err(Error::IoError(IoErrorKind::UnexpectedEof))
    ));
    // The bytes are asked for before they are looked at.
    assert!(matches!(
        read::<String>(&[3, 0xff, 0xff]),
        Err(Error::IoError(IoErrorKind::UnexpectedEof))
    ));
}

#[test]
fn bytes_from_text() {
    assert_eq!(Bytes::from("egg"), Bytes(vec![101, 103, 103]));
    assert_eq!(Bytes::from("é".to_string()), Bytes(vec![0xc3, 0xa9]));
    assert_eq!(Bytes::from(vec![1u8, 2]), Bytes(vec![1, 2]));
}

#[test]
fn sequences() {
    roundtrip(vec![1i64, -1, 456], &[3, 1, 255, 255, 254, 200, 1]);
    roundtrip(Vec::<i64>::new(), &[0]);
    roundtrip(vec![vec![true], vec![]], &[2, 1, 1, 0]);
    roundtrip(vec!["a".to_string(), "bc".to_string()], &[2, 1, 97, 2, 98, 99]);
    let items = [7i64, 8];
    assert_eq!(bytes_of(&&items[..]), [2, 7, 8]);
    let many = vec![true; 200];
    let bytes = bytes_of(&many);
    assert_eq!(&bytes[..3], [0xfe, 200, 0]);
    assert_eq!(read::<Vec<bool>>(&bytes).unwrap(), many);
}

#[test]
fn sequences_that_break_off() {
    assert!(matches!(
        read::<Vec<i64>>(&[3, 1, 2]),
        Err(Error::IoError(IoErrorKind::UnexpectedEof))
    ));
    assert!(matches!(read::<Vec<bool>>(&[2, 1, 5]), Err(Error::UnexpectedValueForBool(5))));
    assert!(matches!(
        read::<Vec<bool>>(&[0xfc, 255, 255, 255, 255, 255, 255, 255, 255]),
        Err(Error::IoError(IoErrorKind::UnexpectedEof))
    ));
    assert!(matches!(read::<Vec<bool>>(&[0xff]), Err(Error::IoError(IoErrorKind::InvalidData))));
}

#[test]
fn tuples_of_every_size() {
    roundtrip((1i64,), &[1]);
    roundtrip((1i64, true), &[1, 1]);
    roundtrip((1i64, true, ()), &[1, 1, 0]);
    roundtrip((1i64, true, (), Some(2i64)), &[1, 1, 0, 1, 2]);
    roundtrip((1i64, 2i64, 3i64, 4i64, 5i64), &[1, 2, 3, 4, 5]);
    roundtrip((1i64, 2i64, 3i64, 4i64, 5i64, 6i64), &[1, 2, 3, 4, 5, 6]);
    roundtrip((1i64, 2i64, 3i64, 4i64, 5i64, 6i64, 7i64), &[1, 2, 3, 4, 5, 6, 7]);
    roundtrip((1i64, 2i64, 3i64, 4i64, 5i64, 6i64, 7i64, 8i64), &[1, 2, 3, 4, 5, 6, 7, 8]);
    roundtrip(
        (1i64, 2i64, 3i64, 4i64, 5i64, 6i64, 7i64, 8i64, "9".to_string()),
        &[1, 2, 3, 4, 5, 6, 7, 8, 1, 57],
    );
    roundtrip(
        (Float64(3.141592f64.to_bits()), Float64(6535.8979f64.to_bits())),
        &[122, 0, 139, 252, 250, 33, 9, 64, 20, 63, 198, 220, 229, 135, 185, 64],
    );
    assert!(matches!(read::<(i64, bool)>(&[1, 4]), Err(Error::UnexpectedValueForBool(4))));
    assert!(matches!(
        read::<(i64, bool, i64)>(&[1, 1]),
        Err(Error::IoError(IoErrorKind::UnexpectedEof))
    ));
}

#[test]
fn with_len_puts_the_size_in_front() {
    roundtrip(WithLen(456i64), &[3, 254, 200, 1]);
    roundtrip(WithLen("x".repeat(200)), &{
        let mut expected = vec![0xfe, 203, 0, 0xfe, 200, 0];
        expected.extend_from_slice(&[b'x'; 200]);
        expected
    });
    // The size in front is advice: the value is read as far as it goes.
    assert_eq!(read::<WithLen<i64>>(&[0, 254, 200, 1]).unwrap(), WithLen(456));
    assert_eq!(read::<WithLen<i64>>(&[100, 5]).unwrap(), WithLen(5));
    assert!(matches!(
        read::<WithLen<i64>>(&[0xff, 5]),
        Err(Error::IoError(IoErrorKind::InvalidData))
    ));
}

#[test]
fn maps_are_a_count_and_pairs() {
    roundtrip(Table(vec![(1i64, true), (-1i64, false)]), &[2, 1, 1, 255, 255, 0]);
    roundtrip(Table::<String, i64>(vec![]), &[0]);
    roundtrip(
        Table(vec![("b".to_string(), 2i64), ("a".to_string(), 1i64)]),
        &[2, 1, 98, 2, 1, 97, 1],
    );
}

#[test]
fn an_ordered_map_and_a_hash_map_of_the_same_entries() {
    let entries = [("croissant", 4i64), ("JusDOrange", 1), ("PainAuChocolat", 2)];
    let hashed: std::collections::HashMap<String, i64> =
        entries.iter().map(|(k, v)| (k.to_string(), *v)).collect();
    let ordered: std::collections::BTreeMap<String, i64> =
        entries.iter().map(|(k, v)| (k.to_string(), *v)).collect();
    let from_hashed = bytes_of(&Table(hashed.iter().map(|(k, v)| (k.clone(), *v)).collect()));
    let from_ordered = bytes_of(&Table(ordered.iter().map(|(k, v)| (k.clone(), *v)).collect()));
    assert_eq!(from_hashed.len(), from_ordered.len());
    let back_hashed: std::collections::HashMap<String, i64> =
        read::<Table<String, i64>>(&from_ordered).unwrap().0.into_iter().collect();
    let back_ordered: std::collections::BTreeMap<String, i64> =
        read::<Table<String, i64>>(&from_hashed).unwrap().0.into_iter().collect();
    assert_eq!(back_hashed, hashed);
    assert_eq!(back_ordered, ordered);
}

#[test]
fn a_key_twice_is_refused() {
    assert!(matches!(
        read::<Table<i64, bool>>(&[2, 1, 1, 1, 0]),
        Err(Error::SameKeyAppearsTwiceInMap)
    ));
    // The same key in two forms is the same key.
    assert!(matches!(
        read::<Table<i64, bool>>(&[2, 1, 1, 0xfe, 1, 0, 0]),
        Err(Error::SameKeyAppearsTwiceInMap)
    ));
    assert!(matches!(
        read::<Table<String, i64>>(&[3, 1, 97, 1, 1, 98, 2, 1, 97, 3]),
        Err(Error::SameKeyAppearsTwiceInMap)
    ));
    // What was written with a key twice is refused when read.
    let twice = bytes_of(&Table(vec![(7i64, 1i64), (8, 2), (7, 3)]));
    assert!(matches!(read::<Table<i64, i64>>(&twice), Err(Error::SameKeyAppearsTwiceInMap)));
    // The value of the second entry is read before the key is refused.
    assert!(matches!(
        read::<Table<i64, bool>>(&[2, 1, 1, 1, 9]),
        Err(Error::UnexpectedValueForBool(9))
    ));
    assert!(matches!(
        read::<Table<i64, bool>>(&[2, 1, 1, 1]),
        Err(Error::IoError(IoErrorKind::UnexpectedEof))
    ));
}

#[test]
fn keys_are_told_apart() {
    assert!(5i64.same_key(&5));
    assert!(!5i64.same_key(&6));
    assert!("a".to_string().same_key(&"a".to_string()));
    assert!(!"a".to_string().same_key(&"ab".to_string()));
    assert!(!"".to_string().same_key(&"a".to_string()));
    assert!(Bytes(vec![1, 2]).same_key(&Bytes(vec![1, 2])));
    assert!(!Bytes(vec![1, 2]).same_key(&Bytes(vec![1, 3])));
    assert!(Nat0(3).same_key(&Nat0(3)));
    assert!(true.same_key(&true));
    assert!(!true.same_key(&false));
    assert!(().same_key(&()));
    assert!(7u8.same_key(&7) && !7u8.same_key(&8));
    assert!((-7i8).same_key(&-7) && 7u16.same_key(&7) && (-7i16).same_key(&-7));
    assert!(7u32.same_key(&7) && !(-7i32).same_key(&7));
}

#[test]
fn errors_as_text() {
    assert_eq!(format!("{:?}", Error::UnexpectedValueForBool(7)), "UnexpectedValueForBool(7)");
    assert_eq!(
        format!("{:?}", Error::UnexpectedVariantIndex { index: 9, ident: "Menu" }),
        "UnexpectedVariantIndex { index: 9, ident: \"Menu\" }"
    );
    assert_eq!(format!("{:?}", Error::from(IoErrorKind::UnexpectedEof)), "IoError(UnexpectedEof)");
    assert_eq!(format!("{:?}", Error::CustomError("no".to_string())), "CustomError(\"no\")");
}
