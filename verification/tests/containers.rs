use checkpointui::gguf::{default_registry, GgufFile, Gguf, NumericTypeInfo};
use checkpointui::meta::MetaValue;
use checkpointui::model::PathSplit;
use checkpointui::safetensors::{header_len_of_prefix, Safetensors};
use checkpointui::storage::Storage;
use checkpointui::AppError;

/// Byte storage over an in-memory buffer, for exercising the readers.
struct MemStorage {
    bytes: Vec<u8>,
}

impl Storage for MemStorage {
    fn display(&self) -> String {
        "memory".to_owned()
    }

    fn read_range(&mut self, start: u64, len: usize) -> Result<Vec<u8>, AppError> {
        let start = start as usize;
        if start + len > self.bytes.len() {
            return Err(AppError::StorageFailure("read past the end".to_owned()));
        }
        Ok(self.bytes[start..start + len].to_vec())
    }

    fn read(&mut self) -> Result<Vec<u8>, AppError> {
        Ok(self.bytes.clone())
    }

    fn write(&mut self, bytes: &Vec<u8>) -> Result<(), AppError> {
        self.bytes = bytes.clone();
        Ok(())
    }

    fn splice(&mut self, start: usize, end: usize, bytes: &Vec<u8>) -> Result<(), AppError> {
        if start > end || end > self.bytes.len() {
            return Err(AppError::StorageFailure("splice out of range".to_owned()));
        }
        self.bytes.splice(start..end, bytes.iter().copied());
        Ok(())
    }
}

fn push_u32(out: &mut Vec<u8>, v: u32) {
    out.extend_from_slice(&v.to_le_bytes());
}

fn push_u64(out: &mut Vec<u8>, v: u64) {
    out.extend_from_slice(&v.to_le_bytes());
}

fn push_gguf_string(out: &mut Vec<u8>, s: &str) {
    push_u64(out, s.len() as u64);
    out.extend_from_slice(s.as_bytes());
}

fn gguf_header(tensor_count: u64, kv_count: u64) -> Vec<u8> {
    let mut out = b"GGUF".to_vec();
    push_u32(&mut out, 3);
    push_u64(&mut out, tensor_count);
    push_u64(&mut out, kv_count);
    out
}

#[test]
fn gguf_alignment_pads_data_start() {
    // One kv pair `general.alignment = u32(64)` and no tensors: the
    // data section starts at the next multiple of 64.
    let mut bytes = gguf_header(0, 1);
    push_gguf_string(&mut bytes, "general.alignment");
    push_u32(&mut bytes, 4);
    push_u32(&mut bytes, 64);
    let g = GgufFile::read(&bytes, &default_registry()).unwrap();
    assert_eq!(g.alignment, 64);
    assert_eq!(g.data_start, 64);
    assert_eq!(g.data_start % g.alignment, 0);
}

#[test]
fn gguf_default_alignment_is_32() {
    let bytes = gguf_header(0, 0);
    let g = GgufFile::read(&bytes, &default_registry()).unwrap();
    assert_eq!(g.alignment, 32);
    assert_eq!(g.data_start % 32, 0);
    assert!(g.data_start >= bytes.len() as u64);
}

#[test]
fn gguf_tensor_records() {
    let mut bytes = gguf_header(1, 0);
    push_gguf_string(&mut bytes, "layer.0.weight");
    push_u32(&mut bytes, 2);
    push_u64(&mut bytes, 3);
    push_u64(&mut bytes, 4);
    push_u32(&mut bytes, 0);
    push_u64(&mut bytes, 0);
    let g = GgufFile::read(&bytes, &default_registry()).unwrap();
    assert_eq!(g.tensors.len(), 1);
    let t = &g.tensors[0];
    assert_eq!(t.name, "layer.0.weight");
    // Dimensions are stored innermost first and come back reversed.
    assert_eq!(t.shape, vec![4, 3]);
    assert_eq!(t.nbytes, 4 * 3 * 4);
    assert_eq!(t.ty_name, "F32");
    assert_eq!(t.nelements(), 12);
}

#[test]
fn gguf_quantized_block_sizes() {
    let mut bytes = gguf_header(1, 0);
    push_gguf_string(&mut bytes, "w");
    push_u32(&mut bytes, 2);
    push_u64(&mut bytes, 64);
    push_u64(&mut bytes, 2);
    push_u32(&mut bytes, 2);
    push_u64(&mut bytes, 0);
    let g = GgufFile::read(&bytes, &default_registry()).unwrap();
    // Two rows of 64 4-bit elements: 2 blocks of 18 bytes per row.
    assert_eq!(g.tensors[0].nbytes, 2 * 2 * 18);
}

#[test]
fn gguf_rejects_bad_magic() {
    let mut bytes = b"GGLA".to_vec();
    push_u32(&mut bytes, 3);
    push_u64(&mut bytes, 0);
    push_u64(&mut bytes, 0);
    assert!(matches!(GgufFile::read(&bytes, &default_registry()), Err(AppError::NotGguf)));
}

#[test]
fn gguf_rejects_other_versions() {
    let mut bytes = b"GGUF".to_vec();
    push_u32(&mut bytes, 2);
    push_u64(&mut bytes, 0);
    push_u64(&mut bytes, 0);
    assert!(matches!(
        GgufFile::read(&bytes, &default_registry()),
        Err(AppError::GgufVersion)
    ));
}

#[test]
fn gguf_rejects_unknown_metadata_type() {
    let mut bytes = gguf_header(0, 1);
    push_gguf_string(&mut bytes, "k");
    push_u32(&mut bytes, 13);
    assert!(matches!(
        GgufFile::read(&bytes, &default_registry()),
        Err(AppError::UnknownMetaType(13))
    ));
}

#[test]
fn gguf_rejects_empty_shape() {
    let mut bytes = gguf_header(1, 0);
    push_gguf_string(&mut bytes, "w");
    push_u32(&mut bytes, 0);
    push_u32(&mut bytes, 0);
    push_u64(&mut bytes, 0);
    assert!(matches!(
        GgufFile::read(&bytes, &default_registry()),
        Err(AppError::EmptyShape)
    ));
}

#[test]
fn gguf_rejects_size_overflow() {
    let mut bytes = gguf_header(1, 0);
    push_gguf_string(&mut bytes, "w");
    push_u32(&mut bytes, 2);
    push_u64(&mut bytes, u64::MAX / 2);
    push_u64(&mut bytes, 1024);
    push_u32(&mut bytes, 0);
    push_u64(&mut bytes, 0);
    assert!(matches!(
        GgufFile::read(&bytes, &default_registry()),
        Err(AppError::SizeOverflow)
    ));
}

#[test]
fn gguf_rejects_unknown_tensor_type() {
    let mut bytes = gguf_header(1, 0);
    push_gguf_string(&mut bytes, "w");
    push_u32(&mut bytes, 1);
    push_u64(&mut bytes, 4);
    push_u32(&mut bytes, 999);
    push_u64(&mut bytes, 0);
    assert!(matches!(
        GgufFile::read(&bytes, &default_registry()),
        Err(AppError::UnknownTensorType(999))
    ));
}

#[test]
fn gguf_metadata_values() {
    let mut bytes = gguf_header(0, 3);
    push_gguf_string(&mut bytes, "name");
    push_u32(&mut bytes, 8);
    push_gguf_string(&mut bytes, "résumé");
    push_gguf_string(&mut bytes, "count");
    push_u32(&mut bytes, 11);
    bytes.extend_from_slice(&(-5i64).to_le_bytes());
    push_gguf_string(&mut bytes, "flag");
    push_u32(&mut bytes, 7);
    bytes.push(1);
    let g = GgufFile::read(&bytes, &default_registry()).unwrap();
    assert_eq!(g.metadata.len(), 3);
    assert_eq!(g.metadata[0].0, "name");
    assert!(matches!(&g.metadata[0].2, MetaValue::Text(t) if t == "résumé"));
    assert!(matches!(g.metadata[1].2, MetaValue::Int(-5)));
    assert!(matches!(g.metadata[2].2, MetaValue::Bool(true)));
}

#[test]
fn gguf_metadata_elides_long_arrays() {
    let mut bytes = gguf_header(0, 1);
    push_gguf_string(&mut bytes, "tokens");
    push_u32(&mut bytes, 9);
    push_u32(&mut bytes, 0);
    push_u64(&mut bytes, 101);
    for i in 0..101u8 {
        bytes.push(i);
    }
    let storage = MemStorage { bytes };
    let g = Gguf::open(storage, &default_registry()).unwrap();
    let m = g.metadata().unwrap();
    match m {
        MetaValue::Object(entries) => {
            assert_eq!(entries.len(), 1);
            assert!(matches!(&entries[0].1, MetaValue::Text(t) if t == "..."));
        }
        _ => panic!("metadata is an object"),
    }
}

#[test]
fn gguf_write_is_unsupported() {
    let storage = MemStorage { bytes: gguf_header(0, 0) };
    let mut g = Gguf::open(storage, &default_registry()).unwrap();
    assert!(matches!(
        g.write_metadata(&MetaValue::Null),
        Err(AppError::GgufWriteUnsupported)
    ));
}

fn st_bytes(header_json: &str, data: &[u8]) -> Vec<u8> {
    let mut out = (header_json.len() as u64).to_le_bytes().to_vec();
    out.extend_from_slice(header_json.as_bytes());
    out.extend_from_slice(data);
    out
}

#[test]
fn safetensors_directory_and_tree() {
    let header = r#"{"__metadata__":{"note":"hi"},"a.w":{"dtype":"F32","shape":[2,3],"data_offsets":[0,24]},"a.b":{"dtype":"F16","shape":[3],"data_offsets":[24,30]}}"#;
    let storage = MemStorage { bytes: st_bytes(header, &[0u8; 30]) };
    let st = Safetensors::open(storage).unwrap();
    assert_eq!(st.data_offset, 8 + header.len() as u64);
    assert_eq!(st.tensors.len(), 2);
    let tree = st.module(&PathSplit::Delim('.')).unwrap();
    assert_eq!(tree.total_tensors, 2);
    assert_eq!(tree.total_params, 6 + 3);
    assert_eq!(tree.children.len(), 1);
    assert_eq!(tree.children[0].0.text_string(), "a");
}

#[test]
fn safetensors_rejects_oversized_header() {
    let mut bytes = (200u64 * 1024 * 1024).to_le_bytes().to_vec();
    bytes.extend_from_slice(b"junk");
    let storage = MemStorage { bytes };
    assert!(matches!(
        Safetensors::open(storage),
        Err(AppError::HeaderTooLarge)
    ));
}

#[test]
fn safetensors_rejects_bad_entries() {
    let header = r#"{"w":{"dtype":"F32","shape":[2],"data_offsets":[8,0]}}"#;
    let storage = MemStorage { bytes: st_bytes(header, &[]) };
    assert!(matches!(
        Safetensors::open(storage),
        Err(AppError::BadTensorEntry)
    ));
    let header = r#"[1,2,3]"#;
    let storage = MemStorage { bytes: st_bytes(header, &[]) };
    assert!(matches!(Safetensors::open(storage), Err(AppError::HeaderJson)));
}

#[test]
fn safetensors_metadata_coerces_json_strings() {
    let header = r#"{"__metadata__":{"steps":"120","plain":"hello"}}"#;
    let storage = MemStorage { bytes: st_bytes(header, &[]) };
    let st = Safetensors::open(storage).unwrap();
    let m = st.metadata().unwrap();
    // The JSON parse sorts object keys, so `plain` precedes `steps`.
    match m {
        MetaValue::Object(entries) => {
            assert_eq!(entries.len(), 2);
            assert_eq!(entries[0].0, "plain");
            assert!(matches!(&entries[0].1, MetaValue::Text(t) if t == "hello"));
            assert_eq!(entries[1].0, "steps");
            assert!(matches!(entries[1].1, MetaValue::UInt(120)));
        }
        _ => panic!("metadata is an object"),
    }
}

#[test]
fn safetensors_metadata_round_trip() {
    // Writing a metadata tree and reading it back yields the flattened
    // pairs, values coerced through the JSON-string rule.
    let header = r#"{"w":{"dtype":"F32","shape":[2],"data_offsets":[0,8]}}"#;
    let storage = MemStorage { bytes: st_bytes(header, &[0u8; 8]) };
    let mut st = Safetensors::open(storage).unwrap();
    let meta = MetaValue::Object(vec![
        ("run".to_owned(), MetaValue::Object(vec![
            ("steps".to_owned(), MetaValue::UInt(12)),
        ])),
        ("note".to_owned(), MetaValue::Text("plain text".to_owned())),
    ]);
    st.write_metadata(&meta).unwrap();
    // Re-open the spliced bytes and read the metadata back.
    let bytes = st.storage.bytes.clone();
    let st2 = Safetensors::open(MemStorage { bytes }).unwrap();
    assert_eq!(st2.tensors.len(), 1);
    let m = st2.metadata().unwrap();
    // The JSON parse sorts object keys, so `note` precedes `run.steps`.
    match m {
        MetaValue::Object(entries) => {
            assert_eq!(entries.len(), 2);
            assert_eq!(entries[0].0, "note");
            assert!(matches!(&entries[0].1, MetaValue::Text(t) if t == "plain text"));
            assert_eq!(entries[1].0, "run.steps");
            assert!(matches!(entries[1].1, MetaValue::UInt(12)));
        }
        _ => panic!("metadata is an object"),
    }
}

#[test]
fn safetensors_write_sorts_by_offset() {
    let header = r#"{"b":{"dtype":"F32","shape":[2],"data_offsets":[8,16]},"a":{"dtype":"F32","shape":[2],"data_offsets":[0,8]}}"#;
    let storage = MemStorage { bytes: st_bytes(header, &[0u8; 16]) };
    let mut st = Safetensors::open(storage).unwrap();
    st.write_metadata(&MetaValue::Object(vec![])).unwrap();
    // After the rewrite, the directory lists `a` (offset 0) first.
    assert_eq!(st.tensors[0].0, "a");
    assert_eq!(st.tensors[1].0, "b");
    let text = String::from_utf8(st.storage.bytes[8..].to_vec()).unwrap();
    assert!(text.starts_with(r#"{"__metadata__":{}"#));
    let a_at = text.find(r#""a":"#).unwrap();
    let b_at = text.find(r#""b":"#).unwrap();
    assert!(a_at < b_at);
}

#[test]
fn safetensors_write_escapes_strings() {
    let header = r#"{}"#;
    let storage = MemStorage { bytes: st_bytes(header, &[]) };
    let mut st = Safetensors::open(storage).unwrap();
    let meta = MetaValue::Object(vec![
        ("q".to_owned(), MetaValue::Text("say \"hi\"\\now".to_owned())),
    ]);
    st.write_metadata(&meta).unwrap();
    let bytes = st.storage.bytes.clone();
    let st2 = Safetensors::open(MemStorage { bytes }).unwrap();
    let m = st2.metadata().unwrap();
    match m {
        MetaValue::Object(entries) => {
            assert!(matches!(&entries[0].1, MetaValue::Text(t) if t == "say \"hi\"\\now"));
        }
        _ => panic!("metadata is an object"),
    }
}

#[test]
fn registry_lookup_and_extension() {
    let mut reg = default_registry();
    assert!(reg.lookup(0).is_some());
    assert!(reg.lookup(999).is_none());
    reg.entries.push(NumericTypeInfo { id: 999, block_size: 256, type_size: 84 });
    let tr = reg.lookup(999).unwrap();
    assert_eq!(tr.block_size, 256);
}

#[test]
fn gguf_nested_array_values() {
    let mut bytes = gguf_header(0, 1);
    push_gguf_string(&mut bytes, "grid");
    push_u32(&mut bytes, 9);
    push_u32(&mut bytes, 9);
    push_u64(&mut bytes, 2);
    push_u32(&mut bytes, 4);
    push_u64(&mut bytes, 1);
    push_u32(&mut bytes, 7);
    push_u32(&mut bytes, 4);
    push_u64(&mut bytes, 1);
    push_u32(&mut bytes, 9);
    let g = GgufFile::read(&bytes, &default_registry()).unwrap();
    match &g.metadata[0].2 {
        MetaValue::Array(rows) => {
            assert_eq!(rows.len(), 2);
            assert!(matches!(&rows[0], MetaValue::Array(r) if matches!(r[0], MetaValue::UInt(7))));
            assert!(matches!(&rows[1], MetaValue::Array(r) if matches!(r[0], MetaValue::UInt(9))));
        }
        _ => panic!("value is an array"),
    }
}

#[test]
fn gguf_rejects_truncated_headers() {
    let mut bytes = gguf_header(0, 1);
    push_gguf_string(&mut bytes, "k");
    push_u32(&mut bytes, 10);
    bytes.extend_from_slice(&[1, 2, 3]);
    assert!(matches!(
        GgufFile::read(&bytes, &default_registry()),
        Err(AppError::GgufTruncated)
    ));
}

#[test]
fn gguf_float_values_keep_their_bits() {
    let mut bytes = gguf_header(0, 1);
    push_gguf_string(&mut bytes, "scale");
    push_u32(&mut bytes, 6);
    bytes.extend_from_slice(&1.5f32.to_le_bytes());
    let g = GgufFile::read(&bytes, &default_registry()).unwrap();
    assert!(matches!(g.metadata[0].2, MetaValue::F32Bits(b) if f32::from_bits(b) == 1.5));
}

#[test]
fn safetensors_unknown_dtype_is_kept() {
    let header = r#"{"w":{"dtype":"Q9_X","shape":[2],"data_offsets":[0,2]}}"#;
    let storage = MemStorage { bytes: st_bytes(header, &[0u8; 2]) };
    let st = Safetensors::open(storage).unwrap();
    assert_eq!(st.tensors[0].1.ty.type_label(), "Q9_X");
}

#[test]
fn safetensors_header_limit_boundary() {
    // A declared length one past the limit is refused before any read.
    let mut bytes = (104857601u64).to_le_bytes().to_vec();
    bytes.push(0);
    assert!(matches!(
        Safetensors::open(MemStorage { bytes }),
        Err(AppError::HeaderTooLarge)
    ));
}

#[test]
fn safetensors_data_offsets_span_is_size() {
    let header = r#"{"w":{"dtype":"F32","shape":[3],"data_offsets":[4,16]}}"#;
    let storage = MemStorage { bytes: st_bytes(header, &[0u8; 16]) };
    let st = Safetensors::open(storage).unwrap();
    assert_eq!(st.tensors[0].1.offset, 4);
    assert_eq!(st.tensors[0].1.size, 12);
}

#[test]
fn gguf_rejects_short_files_as_truncated() {
    assert!(matches!(
        GgufFile::read(&[], &default_registry()),
        Err(AppError::GgufTruncated)
    ));
    assert!(matches!(
        GgufFile::read(b"GGUF", &default_registry()),
        Err(AppError::GgufTruncated)
    ));
}

#[test]
fn header_prefix_checks() {
    let ok = 12u64.to_le_bytes().to_vec();
    assert_eq!(header_len_of_prefix(&ok), Ok(12));
    let over = 104857601u64.to_le_bytes().to_vec();
    assert!(matches!(header_len_of_prefix(&over), Err(AppError::HeaderTooLarge)));
    assert!(matches!(header_len_of_prefix(&vec![1, 2, 3]), Err(AppError::HeaderJson)));
}

#[test]
fn error_messages_match_their_variants() {
    assert_eq!(AppError::NotGguf.message(), "not a gguf file");
    assert_eq!(AppError::GgufVersion.message(), "not a version 3 gguf file");
    assert_eq!(AppError::SizeOverflow.message(), "tensor size overflowed");
    assert_eq!(AppError::EmptyShape.message(), "empty shape");
    assert_eq!(
        AppError::GgufWriteUnsupported.message(),
        "editing gguf files is not yet supported"
    );
    assert_eq!(AppError::Cancelled.message(), "cancelled");
    assert_eq!(AppError::TensorEmpty.message(), "tensor is empty");
    assert_eq!(AppError::StorageFailure("disk gone".to_owned()).message(), "disk gone");
}
