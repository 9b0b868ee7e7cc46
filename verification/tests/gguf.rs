//! Values, types and the layout of files.

use willamette::gguf::bytes::{read_gguf_string, ByteCursor};
use willamette::gguf::metadata::Metadata;
use willamette::gguf::reader::{align_offset, compute_tensor_byte_len, GgufFile};
use willamette::gguf::types::{GgmlType, GgufMetadataValueType};
use willamette::gguf::value::{read_gguf_typed_value, read_gguf_value, GgufValue};

fn cursor(data: &[u8]) -> ByteCursor<'_> {
    ByteCursor { data, pos: 0 }
}

#[test]
fn numbers_are_little_endian() {
    let bytes = [0xfe, 0xff, 0x34, 0x12, 0x78, 0x56, 0x00, 0x80];
    assert_eq!(cursor(&bytes).take_u8(), Some(0xfe));
    assert_eq!(cursor(&bytes).take_i8(), Some(-2));
    assert_eq!(cursor(&bytes).take_u16(), Some(0xfffe));
    assert_eq!(cursor(&bytes).take_i16(), Some(-2));
    assert_eq!(cursor(&bytes).take_u32(), Some(0x1234_fffe));
    assert_eq!(cursor(&bytes).take_i32(), Some(0x1234_fffe));
    assert_eq!(cursor(&bytes).take_u64(), Some(0x8000_5678_1234_fffe));
    assert_eq!(
        cursor(&bytes).take_i64(),
        Some(0x8000_5678_1234_fffe_u64 as i64)
    );
    let mut c = cursor(&bytes);
    c.take_u32();
    assert_eq!(c.remaining(), 4);
    assert_eq!(c.take_u64(), None);
    assert_eq!(c.pos, 4);
    assert_eq!(c.take_u32(), Some(0x8000_5678));
    assert_eq!(c.take_u8(), None);
}

fn text_bytes(text: &[u8]) -> Vec<u8> {
    let mut out = (text.len() as u64).to_le_bytes().to_vec();
    out.extend_from_slice(text);
    out
}

#[test]
fn texts_are_checked() {
    let good = text_bytes("né".as_bytes());
    let mut c = cursor(&good);
    assert_eq!(read_gguf_string(&mut c).unwrap(), "né");
    assert_eq!(c.remaining(), 0);
    let bad = text_bytes(&[b'n', 0xc3]);
    assert!(read_gguf_string(&mut cursor(&bad)).is_err());
    let long = u64::MAX.to_le_bytes();
    assert!(read_gguf_string(&mut cursor(&long)).is_err());
    assert!(read_gguf_string(&mut cursor(&[1, 2])).is_err());
}

#[test]
fn values_are_read_by_their_type() {
    let mut bytes = 4_u32.to_le_bytes().to_vec();
    bytes.extend_from_slice(&77_u32.to_le_bytes());
    assert!(matches!(
        read_gguf_value(&mut cursor(&bytes)),
        Ok(GgufValue::Uint32(77))
    ));
    let half = 0.5_f32.to_le_bytes();
    assert!(matches!(
        read_gguf_typed_value(&mut cursor(&half), GgufMetadataValueType::Float32, 0),
        Ok(GgufValue::Float32(bits)) if f32::from_bits(bits) == 0.5
    ));
    let mut list = 0_u32.to_le_bytes().to_vec();
    list.extend_from_slice(&3_u64.to_le_bytes());
    list.extend_from_slice(&[1, 2, 3]);
    match read_gguf_typed_value(&mut cursor(&list), GgufMetadataValueType::Array, 0) {
        Ok(GgufValue::Array(items)) => assert_eq!(items.len(), 3),
        other => panic!("unexpected {other:?}"),
    }
    assert!(read_gguf_typed_value(&mut cursor(&[7]), GgufMetadataValueType::Unknown(99), 0).is_err());
}

#[test]
fn type_numbers_come_back() {
    for raw in 0..300 {
        assert_eq!(GgmlType::from_raw(raw).to_raw(), raw);
    }
    assert_eq!(GgmlType::from_raw(1), GgmlType::F16);
    assert_eq!(GgmlType::from_raw(36), GgmlType::BitNetI2S);
    assert!(GgmlType::BitNetI2S.is_bitnet());
    assert!(!GgmlType::F16.is_bitnet());
    assert_eq!(GgmlType::F16.name(), "F16");
}

#[test]
fn offsets_are_aligned() {
    assert_eq!(align_offset(0, 32), Some(0));
    assert_eq!(align_offset(1, 32), Some(32));
    assert_eq!(align_offset(64, 32), Some(64));
    assert_eq!(align_offset(u64::MAX, 32), None);
}

#[test]
fn sizes_follow_from_shape_and_type() {
    let size = |shape: &[u64], t| compute_tensor_byte_len(shape, t).unwrap();
    assert_eq!(size(&[3, 2], GgmlType::F32), Some(24));
    assert_eq!(size(&[3, 2], GgmlType::F16), Some(12));
    assert_eq!(size(&[128, 2], GgmlType::BitNetI2S), Some(64));
    assert_eq!(size(&[256, 2], GgmlType::Q6K), Some(420));
    assert_eq!(size(&[256], GgmlType::Q4K), Some(144));
    assert_eq!(size(&[0], GgmlType::F32), Some(0));
    assert_eq!(size(&[0], GgmlType::IQ1S), None);
    assert_eq!(size(&[7], GgmlType::IQ1S), None);
}

#[test]
fn metadata_keeps_the_last_value_of_a_key() {
    let mut m = Metadata::new();
    assert!(m.is_empty());
    m.insert("a".to_string(), GgufValue::Uint8(1));
    m.insert("b".to_string(), GgufValue::Str("x".to_string()));
    m.insert("a".to_string(), GgufValue::Uint16(5));
    assert_eq!(m.len(), 2);
    assert_eq!(m.get("a").unwrap().as_u64(), Some(5));
    assert_eq!(m.get("b").unwrap().as_str(), Some("x"));
    assert!(m.get("c").is_none());
    assert_eq!(GgufValue::Int32(-1).as_u64(), None);
    assert_eq!(
        GgufValue::Float64(0.1_f64.to_bits()).as_f32(),
        Some((0.1_f64 as f32).to_bits())
    );
    let words = GgufValue::Array(vec![
        GgufValue::Str("p".to_string()),
        GgufValue::Str("q".to_string()),
    ]);
    assert_eq!(words.as_string_array(), Some(vec!["p", "q"]));
}

#[test]
fn doubles_narrow_as_casts_do() {
    let mut state = 99_u64;
    for _ in 0..20_000 {
        state = state
            .wrapping_mul(6_364_136_223_846_793_005)
            .wrapping_add(1_442_695_040_888_963_407);
        let exponent = 860 + (state >> 40) % 340;
        let bits = (state & 0x800f_ffff_ffff_ffff) | (exponent << 52);
        let expected = f64::from_bits(bits) as f32;
        let found = GgufValue::Float64(bits).as_f32().unwrap();
        assert_eq!(found, expected.to_bits(), "{bits:x}");
    }
}

#[test]
fn tensors_lie_apart_and_in_the_file() {
    let mut file = b"GGUF".to_vec();
    file.extend_from_slice(&3_u32.to_le_bytes());
    file.extend_from_slice(&2_u64.to_le_bytes());
    file.extend_from_slice(&0_u64.to_le_bytes());
    for (name, offset) in [("a", 0_u64), ("b", 32)] {
        file.extend(text_bytes(name.as_bytes()));
        file.extend_from_slice(&1_u32.to_le_bytes());
        file.extend_from_slice(&4_u64.to_le_bytes());
        file.extend_from_slice(&0_u32.to_le_bytes());
        file.extend_from_slice(&offset.to_le_bytes());
    }
    while file.len() % 32 != 0 {
        file.push(0);
    }
    let start = file.len();
    file.extend_from_slice(&[7; 48]);
    let gguf = GgufFile::parse(&file).unwrap();
    assert_eq!(gguf.data_section_start as usize, start);
    assert_eq!(gguf.tensors[0].data.len(), 16);
    assert!(gguf.tensors[0].offset + gguf.tensors[0].byte_len <= gguf.tensors[1].offset);
    assert_eq!(
        gguf.tensors[1].offset + gguf.tensors[1].byte_len,
        file.len() as u64
    );
    file.truncate(file.len() - 1);
    assert!(GgufFile::parse(&file).is_err());
}
