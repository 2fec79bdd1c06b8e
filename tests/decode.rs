use tdms_core::error::TdmsError;
use tdms_core::extract::decode_integer_samples;
use tdms_core::object_path::{ObjectPathCache, ObjectPathId};
use tdms_core::properties::{TdmsProperty, TdmsValue};
use tdms_core::raw_data_index::{
    read_raw_data_index, RawDataIndex, RawDataIndexCache, RawDataIndexId, RawDataIndexTable,
};
use tdms_core::reader::{read_i32, read_string, read_u16, read_u32, read_u64, read_u8};
use tdms_core::segment::{read_metadata, SegmentObject, TdmsReader};
use tdms_core::toc::{TocFlag, TocMask};
use tdms_core::types::TdsType;

const META: u32 = 0x2;
const NEW_OBJ_LIST: u32 = 0x4;
const RAW_DATA: u32 = 0x8;

fn put_u32(v: &mut Vec<u8>, x: u32) {
    v.extend_from_slice(&x.to_le_bytes());
}

fn put_u64(v: &mut Vec<u8>, x: u64) {
    v.extend_from_slice(&x.to_le_bytes());
}

fn put_str(v: &mut Vec<u8>, s: &str) {
    put_u32(v, s.len() as u32);
    v.extend_from_slice(s.as_bytes());
}

/// An object entry with an inline shape: type, dimension, count.
fn inline_object(path: &str, type_code: u32, dimension: u32, count: u64) -> Vec<u8> {
    let mut v = Vec::new();
    put_str(&mut v, path);
    put_u32(&mut v, 20);
    put_u32(&mut v, type_code);
    put_u32(&mut v, dimension);
    put_u64(&mut v, count);
    put_u32(&mut v, 0);
    v
}

/// An object entry whose raw data index header is `header` and that has no properties.
fn header_object(path: &str, header: u32) -> Vec<u8> {
    let mut v = Vec::new();
    put_str(&mut v, path);
    put_u32(&mut v, header);
    put_u32(&mut v, 0);
    v
}

/// A whole segment: lead-in, object list and raw data.
fn segment(toc: u32, objects: &[Vec<u8>], raw: &[u8]) -> Vec<u8> {
    let mut meta = Vec::new();
    put_u32(&mut meta, objects.len() as u32);
    for o in objects {
        meta.extend_from_slice(o);
    }
    let mut v = vec![0x54, 0x44, 0x53, 0x6d];
    put_u32(&mut v, toc);
    put_u32(&mut v, 4713);
    put_u64(&mut v, (meta.len() + raw.len()) as u64);
    put_u64(&mut v, meta.len() as u64);
    v.extend_from_slice(&meta);
    v.extend_from_slice(raw);
    v
}

fn floats(xs: &[f32]) -> Vec<u8> {
    let mut v = Vec::new();
    for x in xs {
        v.extend_from_slice(&x.to_le_bytes());
    }
    v
}

fn decode_floats(b: &[u8]) -> Vec<f32> {
    b.chunks(4).map(|c| f32::from_le_bytes([c[0], c[1], c[2], c[3]])).collect()
}

fn id_of(reader: &TdmsReader, path: &str) -> ObjectPathId {
    reader.object_paths.find_id(&path.to_string()).expect("path interned")
}

#[test]
fn end_to_end_single_float_channel() {
    let raw = floats(&[1.5, -2.0, 3.25, 4.0]);
    let file = segment(
        META | NEW_OBJ_LIST | RAW_DATA,
        &[inline_object("/'Group'/'Chan1'", 9, 1, 4)],
        &raw,
    );
    assert_eq!(&file[0..4], &[0x54, 0x44, 0x53, 0x6D]);
    let reader = read_metadata(&file).expect("decodes");
    assert_eq!(reader.segments.len(), 1);
    assert_eq!(reader.object_paths.len(), 1);
    let id = id_of(&reader, "/'Group'/'Chan1'");
    assert_eq!(id.as_usize(), 0);
    let shape = reader.current_shape(id).unwrap();
    assert_eq!(shape.data_type, TdsType::SingleFloat);
    assert_eq!(shape.number_of_values, 4);
    assert_eq!(shape.data_size, 16);
    assert_eq!(reader.channel_sample_count(id), Ok(4));
    let bytes = reader.read_channel_bytes(&file, id).unwrap();
    assert_eq!(decode_floats(&bytes), vec![1.5, -2.0, 3.25, 4.0]);
}

#[test]
fn truncated_lead_in_fails() {
    let full = segment(META | NEW_OBJ_LIST, &[], &[]);
    let file = full[0..14].to_vec();
    match read_metadata(&file) {
        Err(TdmsError::TruncatedInput { .. }) => {}
        other => panic!("expected truncation, got {:?}", other.err()),
    }
}

#[test]
fn partial_magic_is_truncation() {
    let file = vec![0x54, 0x44];
    assert_eq!(read_metadata(&file).err(), Some(TdmsError::TruncatedInput { position: 0 }));
}

#[test]
fn empty_file_has_no_segments() {
    let reader = read_metadata(&[]).unwrap();
    assert_eq!(reader.segments.len(), 0);
    assert_eq!(reader.object_paths.len(), 0);
    assert!(reader.properties.is_empty());
    assert!(reader.current_shape(ObjectPathId { id: 0 }).is_none());
}

#[test]
fn multi_segment_reuse_reads_second_block_with_first_shape() {
    let mut file = segment(
        META | NEW_OBJ_LIST | RAW_DATA,
        &[inline_object("/'G'/'X'", 9, 1, 2)],
        &floats(&[1.0, 2.0]),
    );
    file.extend(segment(
        META | NEW_OBJ_LIST | RAW_DATA,
        &[header_object("/'G'/'X'", 0)],
        &floats(&[3.0, 4.0]),
    ));
    let reader = read_metadata(&file).unwrap();
    assert_eq!(reader.segments.len(), 2);
    assert_eq!(reader.segments[1].objects[0], reader.segments[0].objects[0]);
    let id = id_of(&reader, "/'G'/'X'");
    let bytes = reader.read_channel_bytes(&file, id).unwrap();
    assert_eq!(decode_floats(&bytes), vec![1.0, 2.0, 3.0, 4.0]);
    assert_eq!(reader.channel_sample_count(id), Ok(4));
}

#[test]
fn segment_count_and_order() {
    let mut file = Vec::new();
    let mut starts = Vec::new();
    for k in 0..3u32 {
        starts.push(file.len() as u64);
        file.extend(segment(
            META | NEW_OBJ_LIST | RAW_DATA,
            &[inline_object("/'G'/'C'", 7, 1, 1)],
            &(k + 10).to_le_bytes(),
        ));
    }
    let reader = read_metadata(&file).unwrap();
    assert_eq!(reader.segments.len(), 3);
    for k in 0..3 {
        assert_eq!(reader.segments[k].position, starts[k]);
    }
    assert_eq!(reader.segments[2].next_segment_position, file.len() as u64);
    let id = id_of(&reader, "/'G'/'C'");
    let bytes = reader.read_channel_bytes(&file, id).unwrap();
    let mut expected = Vec::new();
    for k in 10..13u32 {
        expected.extend_from_slice(&k.to_le_bytes());
    }
    assert_eq!(bytes, expected);
}

#[test]
fn interning_is_idempotent_and_injective() {
    let mut cache = ObjectPathCache::new();
    let a = cache.get_or_create_id("/'A'".to_string());
    let b = cache.get_or_create_id("/'B'".to_string());
    let a2 = cache.get_or_create_id("/'A'".to_string());
    assert_eq!(a, a2);
    assert_ne!(a, b);
    assert_eq!(a.as_usize(), 0);
    assert_eq!(b.as_usize(), 1);
    assert_eq!(cache.len(), 2);
    assert_eq!(cache.get_path(b).unwrap(), "/'B'");
    assert!(cache.get_path(ObjectPathId { id: 2 }).is_none());
    assert!(cache.find_id(&"/'C'".to_string()).is_none());
}

#[test]
fn reuse_before_definition_fails() {
    let file = segment(META | NEW_OBJ_LIST, &[header_object("/'G'/'Y'", 0)], &[]);
    match read_metadata(&file) {
        Err(TdmsError::MissingPreviousIndex { position }) => {
            // 28-byte lead-in, object count, then the 4-byte length and 8-byte path
            assert_eq!(position, 28 + 4 + 4 + 8);
        }
        other => panic!("expected missing index, got {:?}", other.err()),
    }
}

#[test]
fn reuse_resolves_latest_definition() {
    let mut file = segment(META | NEW_OBJ_LIST, &[inline_object("/'X'", 3, 1, 1)], &[0; 4]);
    file.extend(segment(META | NEW_OBJ_LIST, &[inline_object("/'X'", 4, 1, 1)], &[0; 8]));
    file.extend(segment(META | NEW_OBJ_LIST, &[header_object("/'X'", 0)], &[0; 8]));
    let reader = read_metadata(&file).unwrap();
    let second = reader.segments[1].objects[0].raw_data_index;
    assert_eq!(second, Some(RawDataIndexId { index: 1 }));
    assert_eq!(reader.segments[2].objects[0].raw_data_index, second);
    let id = id_of(&reader, "/'X'");
    assert_eq!(reader.current_shape(id).unwrap().data_type, TdsType::I64);
}

#[test]
fn no_data_objects() {
    let file = segment(
        META | NEW_OBJ_LIST,
        &[header_object("/", 0xFFFF_FFFF), header_object("/'G'", 0xFFFF_FFFF)],
        &[],
    );
    let reader = read_metadata(&file).unwrap();
    let root = id_of(&reader, "/");
    assert_eq!(reader.segments[0].objects[0], SegmentObject::no_data(root));
    assert_eq!(reader.segments[0].objects.len(), 2);
    assert!(reader.current_shape(root).is_none());
}

#[test]
fn scaler_headers_are_not_implemented() {
    for header in [0x1269u32, 0x126A] {
        let file = segment(META | NEW_OBJ_LIST, &[header_object("/'S'", header)], &[]);
        assert_eq!(
            read_metadata(&file).err(),
            Some(TdmsError::NotImplemented { position: 28 + 4 + 4 + 4 })
        );
    }
}

#[test]
fn missing_flags_are_not_implemented() {
    let no_meta = segment(NEW_OBJ_LIST, &[], &[]);
    assert_eq!(read_metadata(&no_meta).err(), Some(TdmsError::NotImplemented { position: 0 }));
    let no_list = segment(META, &[], &[]);
    assert_eq!(read_metadata(&no_list).err(), Some(TdmsError::NotImplemented { position: 0 }));
    let big_endian = segment(META | NEW_OBJ_LIST | 0x40, &[], &[]);
    assert_eq!(read_metadata(&big_endian).err(), Some(TdmsError::NotImplemented { position: 0 }));
}

#[test]
fn bad_magic_is_invalid_header() {
    let mut file = segment(META | NEW_OBJ_LIST, &[], &[]);
    file[3] = 0x00;
    assert_eq!(
        read_metadata(&file).err(),
        Some(TdmsError::InvalidSegmentHeader { position: 0, found: 0x0053_4454 })
    );
}

#[test]
fn bad_magic_in_second_segment_reports_its_position() {
    let first = segment(META | NEW_OBJ_LIST, &[], &[]);
    let mut file = first.clone();
    file.extend_from_slice(b"ABCDEFGH");
    assert_eq!(
        read_metadata(&file).err(),
        Some(TdmsError::InvalidSegmentHeader { position: first.len() as u64, found: 0x4443_4241 })
    );
}

#[test]
fn shape_size_fixed_width() {
    let mut b = Vec::new();
    put_u32(&mut b, 10);
    put_u32(&mut b, 1);
    put_u64(&mut b, 5);
    let mut pos: usize = 0;
    let r = read_raw_data_index(&b, &mut pos).unwrap();
    assert_eq!(r, RawDataIndex { number_of_values: 5, data_type: TdsType::DoubleFloat, data_size: 40 });
    assert_eq!(pos, 16);
}

#[test]
fn shape_size_string_uses_encoded_length() {
    let mut b = Vec::new();
    put_u32(&mut b, 0x20);
    put_u32(&mut b, 1);
    put_u64(&mut b, 3);
    put_u64(&mut b, 77);
    let mut pos: usize = 0;
    let r = read_raw_data_index(&b, &mut pos).unwrap();
    assert_eq!(r.data_size, 77);
    assert_eq!(r.number_of_values, 3);
    assert_eq!(r.data_type, TdsType::String);
    assert_eq!(pos, 24);
}

#[test]
fn shape_size_overflow_is_corrupt() {
    let mut b = Vec::new();
    put_u32(&mut b, 8);
    put_u32(&mut b, 1);
    put_u64(&mut b, u64::MAX / 2);
    let mut pos: usize = 0;
    assert_eq!(read_raw_data_index(&b, &mut pos).err(), Some(TdmsError::CorruptSegment { position: 8 }));
}

#[test]
fn dimension_guard_stops_at_dimension() {
    let mut b = Vec::new();
    put_u32(&mut b, 3);
    put_u32(&mut b, 2);
    let mut pos: usize = 0;
    assert_eq!(
        read_raw_data_index(&b, &mut pos).err(),
        Some(TdmsError::InvalidDimension { position: 4, dimension: 2 })
    );
    assert_eq!(pos, 8);
    let file = segment(META | NEW_OBJ_LIST, &[inline_object("/'D'", 3, 2, 1)], &[]);
    match read_metadata(&file) {
        Err(TdmsError::InvalidDimension { dimension: 2, .. }) => {}
        other => panic!("expected dimension error, got {:?}", other.err()),
    }
}

#[test]
fn unknown_type_code() {
    let file = segment(META | NEW_OBJ_LIST, &[inline_object("/'U'", 0x99, 1, 1)], &[]);
    match read_metadata(&file) {
        Err(TdmsError::UnknownType { code: 0x99, .. }) => {}
        other => panic!("expected unknown type, got {:?}", other.err()),
    }
}

#[test]
fn daqmx_shape_is_not_implemented() {
    let mut b = Vec::new();
    put_u32(&mut b, 0xFFFF_FFFF);
    put_u32(&mut b, 1);
    put_u64(&mut b, 1);
    let mut pos: usize = 0;
    assert_eq!(read_raw_data_index(&b, &mut pos).err(), Some(TdmsError::NotImplemented { position: 0 }));
}

#[test]
fn uneven_span_is_corrupt() {
    let file = segment(META | NEW_OBJ_LIST | RAW_DATA, &[inline_object("/'C'", 3, 1, 1)], &[1, 2, 3, 4, 5]);
    let reader = read_metadata(&file).unwrap();
    let id = id_of(&reader, "/'C'");
    assert_eq!(reader.read_channel_bytes(&file, id).err(), Some(TdmsError::CorruptSegment { position: 0 }));
    assert_eq!(reader.channel_sample_count(id), Err(TdmsError::CorruptSegment { position: 0 }));
}

#[test]
fn raw_data_past_end_is_truncation() {
    let mut file = segment(META | NEW_OBJ_LIST | RAW_DATA, &[inline_object("/'C'", 3, 1, 2)], &[0; 8]);
    file.truncate(file.len() - 8);
    let reader = read_metadata(&file).unwrap();
    let id = id_of(&reader, "/'C'");
    match reader.read_channel_bytes(&file, id) {
        Err(TdmsError::TruncatedInput { .. }) => {}
        other => panic!("expected truncation, got {:?}", other),
    }
}

#[test]
fn interleaved_objects_take_their_own_block_of_each_chunk() {
    // two chunks of (a: u8 x1, b: u16 x1)
    let raw = [1u8, 0x10, 0x00, 2, 0x20, 0x00];
    let file = segment(
        META | NEW_OBJ_LIST | RAW_DATA,
        &[inline_object("/'a'", 5, 1, 1), inline_object("/'b'", 6, 1, 1)],
        &raw,
    );
    let reader = read_metadata(&file).unwrap();
    let a = id_of(&reader, "/'a'");
    let b = id_of(&reader, "/'b'");
    assert_eq!(reader.read_channel_bytes(&file, a).unwrap(), vec![1, 2]);
    assert_eq!(reader.read_channel_bytes(&file, b).unwrap(), vec![0x10, 0x00, 0x20, 0x00]);
    assert_eq!(reader.channel_sample_count(a), Ok(2));
    assert_eq!(reader.channel_sample_count(b), Ok(2));
    let missing = ObjectPathId { id: 7 };
    assert_eq!(reader.read_channel_bytes(&file, missing).unwrap(), Vec::<u8>::new());
    assert_eq!(reader.channel_sample_count(missing), Ok(0));
}

#[test]
fn properties_accumulate_across_segments() {
    let mut obj = Vec::new();
    put_str(&mut obj, "/'P'");
    put_u32(&mut obj, 0xFFFF_FFFF);
    put_u32(&mut obj, 2);
    put_str(&mut obj, "unit");
    put_u32(&mut obj, 0x20);
    put_str(&mut obj, "V");
    put_str(&mut obj, "gain");
    put_u32(&mut obj, 3);
    put_u32(&mut obj, (-7i32) as u32);
    let mut file = segment(META | NEW_OBJ_LIST, &[obj.clone()], &[]);
    file.extend(segment(META | NEW_OBJ_LIST, &[obj], &[]));
    let reader = read_metadata(&file).unwrap();
    let id = id_of(&reader, "/'P'");
    let props: &Vec<TdmsProperty> = &reader.properties[id.as_usize()];
    assert_eq!(props.len(), 4);
    assert_eq!(props[0].name, "unit");
    assert_eq!(props[0].value, TdmsValue::String("V".to_string()));
    assert_eq!(props[1].value, TdmsValue::I32(-7));
    assert_eq!(props[2].name, "unit");
    let gain = reader.find_property(id, &"gain".to_string()).unwrap();
    assert_eq!(gain.value, TdmsValue::I32(-7));
    assert!(reader.find_property(id, &"offset".to_string()).is_none());
    assert!(reader.find_property(ObjectPathId { id: 9 }, &"gain".to_string()).is_none());
}

#[test]
fn property_value_kinds() {
    let mut b = Vec::new();
    put_str(&mut b, "t");
    put_u32(&mut b, 0x44);
    put_u64(&mut b, 5);
    put_u64(&mut b, (-3i64) as u64);
    put_str(&mut b, "f");
    put_u32(&mut b, 10);
    put_u64(&mut b, 2.5f64.to_bits());
    put_str(&mut b, "ok");
    put_u32(&mut b, 0x21);
    b.push(1);
    let mut pos: usize = 0;
    let t = TdmsProperty::read(&b, &mut pos).unwrap();
    assert_eq!(t.value, TdmsValue::TimeStamp { seconds: -3, fractions: 5 });
    let f = TdmsProperty::read(&b, &mut pos).unwrap();
    match f.value {
        TdmsValue::DoubleFloatBits(bits) => assert_eq!(f64::from_bits(bits), 2.5),
        other => panic!("unexpected {:?}", other),
    }
    let ok = TdmsProperty::read(&b, &mut pos).unwrap();
    assert_eq!(ok.value, TdmsValue::Boolean(true));
    assert_eq!(pos, b.len());
}

#[test]
fn invalid_utf8_path_is_rejected() {
    let mut b = Vec::new();
    put_u32(&mut b, 2);
    b.extend_from_slice(&[0xC3, 0x28]);
    let mut pos: usize = 0;
    assert_eq!(read_string(&b, &mut pos).err(), Some(TdmsError::InvalidUtf8 { position: 4 }));
    assert_eq!(pos, 0);
}

#[test]
fn utf8_string_is_decoded() {
    let mut b = Vec::new();
    put_str(&mut b, "µV");
    let mut pos: usize = 0;
    assert_eq!(read_string(&b, &mut pos).unwrap(), "µV");
    assert_eq!(pos, 4 + 3);
}

#[test]
fn primitive_reads_are_little_endian() {
    let b = [0x01u8, 0x02, 0x03, 0x04, 0x05, 0x06, 0x07, 0x08];
    let mut pos: usize = 0;
    assert_eq!(read_u32(&b, &mut pos).unwrap(), 0x04030201);
    assert_eq!(pos, 4);
    pos = 0;
    assert_eq!(read_u64(&b, &mut pos).unwrap(), 0x0807060504030201);
    pos = 0;
    assert_eq!(read_u16(&b, &mut pos).unwrap(), 0x0201);
    pos = 0;
    assert_eq!(read_u8(&b, &mut pos).unwrap(), 1);
    let neg = (-2i32).to_le_bytes();
    pos = 0;
    assert_eq!(read_i32(&neg, &mut pos).unwrap(), -2);
    pos = 6;
    assert_eq!(read_u32(&b, &mut pos).err(), Some(TdmsError::TruncatedInput { position: 6 }));
    assert_eq!(pos, 6);
}

#[test]
fn cache_pads_and_overwrites() {
    let mut cache = RawDataIndexCache::new();
    let five = ObjectPathId { id: 5 };
    cache.set_raw_data_index(five, RawDataIndexId { index: 2 });
    assert_eq!(cache.get_raw_data_index(five), Some(RawDataIndexId { index: 2 }));
    assert_eq!(cache.get_raw_data_index(ObjectPathId { id: 3 }), None);
    assert_eq!(cache.get_raw_data_index(ObjectPathId { id: 9 }), None);
    cache.set_raw_data_index(five, RawDataIndexId { index: 4 });
    assert_eq!(cache.get_raw_data_index(five), Some(RawDataIndexId { index: 4 }));
}

#[test]
fn table_hands_back_records_by_id() {
    let mut table = RawDataIndexTable::new();
    let r1 = RawDataIndex { number_of_values: 1, data_type: TdsType::U8, data_size: 1 };
    let r2 = RawDataIndex { number_of_values: 3, data_type: TdsType::I16, data_size: 6 };
    let a = table.allocate(r1);
    let b = table.allocate(r2);
    assert_eq!(a, RawDataIndexId { index: 0 });
    assert_eq!(b, RawDataIndexId { index: 1 });
    assert_eq!(table.get(b), r2);
    assert_eq!(table.get(a), r1);
}

#[test]
fn type_codes_and_widths() {
    assert_eq!(TdsType::from_u32(9), Some(TdsType::SingleFloat));
    assert_eq!(TdsType::from_u32(0x44), Some(TdsType::TimeStamp));
    assert_eq!(TdsType::from_u32(0), None);
    assert_eq!(TdsType::SingleFloat.size(), Some(4));
    assert_eq!(TdsType::TimeStamp.size(), Some(16));
    assert_eq!(TdsType::String.size(), None);
}

#[test]
fn toc_flags() {
    let m = TocMask::from_flags(META | NEW_OBJ_LIST);
    assert!(m.has_flag(TocFlag::MetaData));
    assert!(m.has_flag(TocFlag::NewObjList));
    assert!(!m.has_flag(TocFlag::RawData));
    assert!(!m.has_flag(TocFlag::BigEndian));
}

#[test]
fn segment_object_builders() {
    let id = ObjectPathId { id: 3 };
    let with = SegmentObject::with_data(id, RawDataIndexId { index: 1 });
    assert_eq!(with.raw_data_index, Some(RawDataIndexId { index: 1 }));
    assert_eq!(SegmentObject::no_data(id).raw_data_index, None);
}

#[test]
fn integer_samples_are_decoded_by_type() {
    let bytes = [0xFEu8, 0xFF, 0x02, 0x00];
    assert_eq!(decode_integer_samples(TdsType::I16, &bytes), Some(vec![-2, 2]));
    assert_eq!(decode_integer_samples(TdsType::U16, &bytes), Some(vec![65534, 2]));
    assert_eq!(decode_integer_samples(TdsType::I8, &bytes), Some(vec![-2, -1, 2, 0]));
    assert_eq!(decode_integer_samples(TdsType::U32, &bytes), Some(vec![0x0002FFFE]));
    let big = u64::MAX.to_le_bytes();
    assert_eq!(decode_integer_samples(TdsType::U64, &big), Some(vec![u64::MAX as i128]));
    assert_eq!(decode_integer_samples(TdsType::I64, &big), Some(vec![-1]));
    assert_eq!(decode_integer_samples(TdsType::I32, &bytes[0..3]), None);
    assert_eq!(decode_integer_samples(TdsType::SingleFloat, &bytes), None);
    assert_eq!(decode_integer_samples(TdsType::U8, &[]), Some(vec![]));
}

#[test]
fn two_segment_reuse_positions_and_shape() {
    let mut file = segment(
        META | NEW_OBJ_LIST | RAW_DATA,
        &[inline_object("/'Group'/'Chan1'", 9, 1, 4)],
        &floats(&[1.0, 2.0, 3.0, 4.0]),
    );
    assert_eq!(file.len(), 92);
    file.extend(segment(
        META | NEW_OBJ_LIST | RAW_DATA,
        &[header_object("/'Group'/'Chan1'", 0)],
        &floats(&[5.0, 6.0, 7.0, 8.0]),
    ));
    let reader = read_metadata(&file).unwrap();
    assert_eq!(reader.segments[0].data_position, 76);
    assert_eq!(reader.segments[0].next_segment_position, 92);
    assert_eq!(reader.segments[1].data_position, 152);
    assert_eq!(reader.segments[1].next_segment_position, 168);
    let id = id_of(&reader, "/'Group'/'Chan1'");
    let bytes = reader.read_channel_bytes(&file, id).unwrap();
    assert_eq!(decode_floats(&bytes), vec![1.0, 2.0, 3.0, 4.0, 5.0, 6.0, 7.0, 8.0]);
    assert!(reader.properties[id.as_usize()].is_empty());
}
