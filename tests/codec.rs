use serde_altar::{
    from_reader, to_writer, Deserialize, Error, ReadDeserializer, Rect, Serialize, ValueSized,
    VecI16, VecI16Flags, VecI32, VecULEB128, WriteSerializer, ULEB128,
};

fn encode<T: serde_altar::Serialize>(v: T) -> Vec<u8> {
    to_writer(Vec::new(), v).unwrap()
}

#[test]
fn scalars_round_trip() {
    assert_eq!(from_reader::<bool>(encode(true)).unwrap(), true);
    assert_eq!(from_reader::<bool>(encode(false)).unwrap(), false);
    assert_eq!(from_reader::<u8>(encode(200u8)).unwrap(), 200u8);
    assert_eq!(from_reader::<u16>(encode(0xbeefu16)).unwrap(), 0xbeefu16);
    assert_eq!(from_reader::<u32>(encode(0xdead_beefu32)).unwrap(), 0xdead_beefu32);
    assert_eq!(from_reader::<u64>(encode(u64::MAX)).unwrap(), u64::MAX);
    assert_eq!(from_reader::<i8>(encode(-128i8)).unwrap(), -128i8);
    assert_eq!(from_reader::<i16>(encode(-2i16)).unwrap(), -2i16);
    assert_eq!(from_reader::<i32>(encode(i32::MIN)).unwrap(), i32::MIN);
    assert_eq!(from_reader::<i64>(encode(-1234567890123i64)).unwrap(), -1234567890123i64);
    assert_eq!(from_reader::<i64>(encode(i64::MAX)).unwrap(), i64::MAX);
}

#[test]
fn scalars_are_little_endian() {
    assert_eq!(encode(true), vec![1]);
    assert_eq!(encode(false), vec![0]);
    assert_eq!(encode(0x0102u16), vec![0x02, 0x01]);
    assert_eq!(encode(-2i16), vec![0xfe, 0xff]);
    assert_eq!(encode(0x01020304u32), vec![4, 3, 2, 1]);
    assert_eq!(encode(-1i64), vec![0xff; 8]);
    assert_eq!(encode(1i32), vec![1, 0, 0, 0]);
}

#[test]
fn bool_rejects_other_bytes() {
    assert_eq!(from_reader::<bool>(vec![2]).err(), Some(Error::Overflow));
}

#[test]
fn truncated_input_is_io() {
    assert_eq!(from_reader::<u32>(vec![1, 2, 3]).err(), Some(Error::IO));
    assert_eq!(from_reader::<bool>(vec![]).err(), Some(Error::IO));
}

#[test]
fn varint_boundaries() {
    let cases: Vec<(u64, usize)> =
        vec![(0, 1), (127, 1), (128, 2), (16383, 2), (16384, 3), (u64::MAX, 10)];
    for (v, len) in cases {
        let u = ULEB128::from_u64(v);
        assert_eq!(u.as_slice().len(), len);
        assert_eq!(u.as_u64().unwrap(), v);
        let mut de = ReadDeserializer::new(u.as_slice().to_vec());
        assert_eq!(de.read_uleb128().unwrap() as u64, v);
        assert_eq!(de.remaining(), 0);
    }
}

#[test]
fn varint_known_bytes() {
    assert_eq!(ULEB128::from_u64(624485).as_slice(), &[0xe5, 0x8e, 0x26]);
    assert_eq!(ULEB128::from_u64(128).as_slice(), &[0x80, 0x01]);
    assert_eq!(ULEB128::from_slice(&[0xe5, 0x8e, 0x26]).as_u64().unwrap(), 624485);
    assert_eq!(encode(ULEB128::from_u64(300)), vec![0xac, 0x02]);
}

#[test]
fn varint_too_wide_is_overflow() {
    let u = ULEB128::from_slice(&[0xff, 0xff, 0xff, 0xff, 0xff, 0xff, 0xff, 0xff, 0xff, 0x02]);
    assert_eq!(u.as_u64().err(), Some(Error::Overflow));
    let mut de = ReadDeserializer::new(u.as_slice().to_vec());
    assert_eq!(de.read_uleb128().err(), Some(Error::Overflow));
}

#[test]
fn varint_unterminated_is_io() {
    let mut de = ReadDeserializer::new(vec![0x80, 0x80]);
    assert_eq!(de.read_uleb128().err(), Some(Error::IO));
}

#[test]
fn strings_round_trip() {
    for s in ["", "hello", "héllo wörld ✓ 日本"] {
        let bytes = encode(s.to_string());
        let mut expected = ULEB128::from_usize(s.len()).as_slice().to_vec();
        expected.extend_from_slice(s.as_bytes());
        assert_eq!(bytes, expected);
        assert_eq!(from_reader::<String>(bytes).unwrap(), s);
    }
}

#[test]
fn invalid_utf8_is_overflow() {
    assert_eq!(from_reader::<String>(vec![2, 0xff, 0xfe]).err(), Some(Error::Overflow));
}

#[test]
fn string_short_input_is_io() {
    assert_eq!(from_reader::<String>(vec![5, b'a', b'b']).err(), Some(Error::IO));
}

#[test]
fn read_uleb128_vec_takes_sized_bytes() {
    let mut de = ReadDeserializer::new(vec![3, 9, 8, 7, 6]);
    assert_eq!(de.read_uleb128_vec().unwrap(), vec![9, 8, 7]);
    assert_eq!(de.position(), 4);
    assert_eq!(de.read_bytes(1).unwrap(), vec![6]);
    assert_eq!(de.read_bytes(1).err(), Some(Error::IO));
}

#[test]
fn bit_flags_encode_packed() {
    let bytes = encode(VecI16Flags(vec![true, false, true]));
    assert_eq!(bytes, vec![0x03, 0x00, 0b0000_0101]);
    let back = from_reader::<VecI16Flags>(bytes).unwrap();
    assert_eq!(back.0, vec![true, false, true]);
}

#[test]
fn bit_flags_empty() {
    let bytes = encode(VecI16Flags(vec![]));
    assert_eq!(bytes, vec![0x00, 0x00]);
    let mut de = ReadDeserializer::new(vec![0x00, 0x00, 0xaa]);
    let back = VecI16Flags::deserialize(&mut de).unwrap();
    assert!(back.0.is_empty());
    assert_eq!(de.position(), 2);
}

#[test]
fn bit_flags_span_bytes() {
    let flags: Vec<bool> = (0..11).map(|i| i % 3 == 0).collect();
    let bytes = encode(VecI16Flags(flags.clone()));
    assert_eq!(bytes, vec![11, 0, 0b0100_1001, 0b0000_0010]);
    assert_eq!(from_reader::<VecI16Flags>(bytes).unwrap().0, flags);
}

#[test]
fn bit_flags_drop_unused_high_bits() {
    let back = from_reader::<VecI16Flags>(vec![2, 0, 0xff]).unwrap();
    assert_eq!(back.0, vec![true, true]);
}

#[test]
fn count16_of_i32() {
    let bytes = encode(VecI16(vec![1i32, 2, 3]));
    assert_eq!(bytes, vec![3, 0, 1, 0, 0, 0, 2, 0, 0, 0, 3, 0, 0, 0]);
    assert_eq!(from_reader::<VecI16<i32>>(bytes).unwrap().0, vec![1, 2, 3]);
}

#[test]
fn count32_and_varint_prefixes() {
    assert_eq!(encode(VecI32(vec![7u8, 8])), vec![2, 0, 0, 0, 7, 8]);
    assert_eq!(encode(VecULEB128(vec![7u8, 8])), vec![2, 7, 8]);
    assert_eq!(from_reader::<VecI32<u8>>(vec![2, 0, 0, 0, 7, 8]).unwrap().0, vec![7, 8]);
    assert_eq!(from_reader::<VecULEB128<u8>>(vec![2, 7, 8]).unwrap().0, vec![7, 8]);
}

#[test]
fn collection_leaves_trailing_bytes() {
    let mut de = ReadDeserializer::new(vec![2, 0, 7, 8, 9, 9]);
    let v = VecI16::<u8>::deserialize(&mut de).unwrap();
    assert_eq!(v.0, vec![7, 8]);
    assert_eq!(de.position(), 4);
    assert_eq!(de.remaining(), 2);
}

#[test]
fn counted_cursor_stops_at_count() {
    let mut de = ReadDeserializer::new(vec![5, 6, 7]);
    let mut seq = ValueSized::new(2);
    assert_eq!(seq.next_element::<u8>(&mut de).unwrap(), Some(5));
    assert_eq!(seq.size_hint(), 1);
    assert_eq!(seq.next_element::<u8>(&mut de).unwrap(), Some(6));
    assert_eq!(seq.next_element::<u8>(&mut de).unwrap(), None);
    assert_eq!(de.remaining(), 1);
}

#[test]
fn nested_collections_round_trip() {
    let v = VecI16(vec![VecULEB128(vec!["a".to_string(), "bc".to_string()]), VecULEB128(vec![])]);
    let bytes = encode(v);
    assert_eq!(bytes, vec![2, 0, 2, 1, b'a', 2, b'b', b'c', 0]);
    let back = from_reader::<VecI16<VecULEB128<String>>>(bytes).unwrap();
    assert_eq!(back.0.len(), 2);
    assert_eq!(back.0[0].0, vec!["a".to_string(), "bc".to_string()]);
    assert!(back.0[1].0.is_empty());
}

#[test]
fn negative_count_is_overflow() {
    assert_eq!(from_reader::<VecI16<u8>>(vec![0xff, 0xff]).err(), Some(Error::Overflow));
    assert_eq!(from_reader::<VecI32<u8>>(vec![0, 0, 0, 0x80]).err(), Some(Error::Overflow));
    assert_eq!(from_reader::<VecI16Flags>(vec![0x00, 0x80]).err(), Some(Error::Overflow));
}

#[test]
fn short_collection_is_io() {
    assert_eq!(from_reader::<VecI16<u16>>(vec![2, 0, 1, 0, 2]).err(), Some(Error::IO));
    assert_eq!(from_reader::<VecI16Flags>(vec![9, 0, 1]).err(), Some(Error::IO));
}

#[test]
fn too_long_collection_is_overflow() {
    let long = vec![0u8; 32768];
    assert_eq!(to_writer(Vec::new(), VecI16(long.clone())).err(), Some(Error::Overflow));
    assert_eq!(
        to_writer(Vec::new(), VecI16Flags(vec![false; 32768])).err(),
        Some(Error::Overflow)
    );
    assert_eq!(encode(VecI16(vec![0u8; 32767])).len(), 2 + 32767);
    assert_eq!(encode(VecI32(long)).len(), 4 + 32768);
}

#[test]
fn unsupported_shapes_fail() {
    assert_eq!(to_writer(Vec::new(), Some(3u8)).err(), Some(Error::Unsupported));
    assert_eq!(to_writer(Vec::new(), None::<u8>).err(), Some(Error::Unsupported));
    assert_eq!(from_reader::<Option<u8>>(vec![1, 3]).err(), Some(Error::Unsupported));
    assert_eq!(to_writer(Vec::new(), 'x').err(), Some(Error::Unsupported));
    assert_eq!(from_reader::<char>(vec![b'x']).err(), Some(Error::Unsupported));
    assert_eq!(to_writer(Vec::new(), ()).err(), Some(Error::Unsupported));
    assert_eq!(from_reader::<()>(vec![]).err(), Some(Error::Unsupported));
    assert_eq!(to_writer(Vec::new(), VecI16(vec![Some(1u8)])).err(), Some(Error::Unsupported));
}

#[test]
fn records_are_fields_in_order() {
    let bytes = encode((7u8, (-2i16, "hi".to_string())));
    assert_eq!(bytes, vec![7, 0xfe, 0xff, 2, b'h', b'i']);
    let back = from_reader::<(u8, (i16, String))>(bytes).unwrap();
    assert_eq!(back, (7u8, (-2i16, "hi".to_string())));
}

#[test]
fn to_writer_appends() {
    let out = to_writer(vec![0xaa], 1u16).unwrap();
    assert_eq!(out, vec![0xaa, 1, 0]);
}

#[test]
fn serializer_hooks() {
    let mut ser = WriteSerializer::new(Vec::new());
    ser.serialize_i8(-1);
    ser.write_uleb128(129);
    ser.serialize_str("ok");
    assert_eq!(ser.as_slice(), &[0xff, 0x81, 0x01, 2, b'o', b'k']);
    assert_eq!(ser.into_inner().len(), 6);
}

#[test]
fn custom_error_keeps_message() {
    assert_eq!(Error::custom("bad chest".to_string()), Error::Message("bad chest".to_string()));
}

#[test]
fn rect_measures() {
    let r = Rect { left: 10, right: 2, top: -3, bottom: 4 };
    assert_eq!(r.width(), 8);
    assert_eq!(r.height(), 7);
    assert_eq!(r.area(), 56);
    let big = Rect { left: i32::MAX, right: 0, top: 0, bottom: -i32::MAX };
    assert_eq!(big.area(), (i32::MAX as i64) * (i32::MAX as i64));
}

#[test]
fn refused_writes_leave_writer_unchanged() {
    let mut ser = WriteSerializer::new(vec![9]);
    assert_eq!(VecI16(vec![0u8; 32768]).serialize(&mut ser).err(), Some(Error::Overflow));
    assert_eq!(VecI16Flags(vec![true; 40000]).serialize(&mut ser).err(), Some(Error::Overflow));
    assert_eq!(Some(5u8).serialize(&mut ser).err(), Some(Error::Unsupported));
    assert_eq!('q'.serialize(&mut ser).err(), Some(Error::Unsupported));
    assert_eq!((None::<u8>, 1u8).serialize(&mut ser).err(), Some(Error::Unsupported));
    assert_eq!(ser.as_slice(), &[9]);
}

#[test]
fn refused_reads_leave_cursor_unchanged() {
    let mut de = ReadDeserializer::new(vec![1, 2, 3]);
    assert_eq!(Option::<u8>::deserialize(&mut de).err(), Some(Error::Unsupported));
    assert_eq!(<()>::deserialize(&mut de).err(), Some(Error::Unsupported));
    assert_eq!(char::deserialize(&mut de).err(), Some(Error::Unsupported));
    assert_eq!(de.position(), 0);
    assert_eq!(de.remaining(), 3);
}

#[test]
fn unsupported_nested_in_collection() {
    assert_eq!(from_reader::<VecI16<Option<u8>>>(vec![1, 0, 5]).err(), Some(Error::Unsupported));
    assert_eq!(
        from_reader::<VecULEB128<(u8, char)>>(vec![1, 5, 6]).err(),
        Some(Error::Unsupported)
    );
    assert_eq!(from_reader::<VecI16<Option<u8>>>(vec![0, 0]).unwrap().0.len(), 0);
}

#[test]
fn longer_records_round_trip() {
    let bytes = encode((1u8, 2u16, 3u32));
    assert_eq!(bytes, vec![1, 2, 0, 3, 0, 0, 0]);
    assert_eq!(from_reader::<(u8, u16, u32)>(bytes).unwrap(), (1, 2, 3));
    let rec = (true, -1i8, "x".to_string(), VecI16(vec![4u8]));
    let bytes = encode(rec);
    assert_eq!(bytes, vec![1, 0xff, 1, b'x', 1, 0, 4]);
    let back = from_reader::<(bool, i8, String, VecI16<u8>)>(bytes).unwrap();
    assert_eq!((back.0, back.1, back.2, back.3 .0), (true, -1, "x".to_string(), vec![4]));
}

#[test]
fn string_literal_bytes() {
    assert_eq!(encode(String::new()), vec![0]);
    assert_eq!(encode("abc".to_string()), vec![3, 0x61, 0x62, 0x63]);
    assert_eq!(encode("\u{e9}".to_string()), vec![2, 0xc3, 0xa9]);
}

#[test]
fn counted_cursor_hands_out_exactly_declared() {
    for n in 0..5usize {
        let mut de = ReadDeserializer::new(vec![7; 8]);
        let mut seq = ValueSized::new(n);
        let mut got = 0;
        while let Some(x) = seq.next_element::<u8>(&mut de).unwrap() {
            assert_eq!(x, 7);
            got += 1;
        }
        assert_eq!(got, n);
        assert_eq!(de.remaining(), 8 - n);
    }
}
