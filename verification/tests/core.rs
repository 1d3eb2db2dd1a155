use checkpointui::analysis::{bin_count_for, fill_bins, initial_go, percentile_index,
    sample_indices, slot_step,
    worker_gate, SlotEvent, SlotState, WorkerAction, WriteOnce};
use checkpointui::codec::{decode_u16s, decode_u16s_ordered, read_u16, read_u32, read_u64, NE};
use checkpointui::meta::{flatten_value, i64_to_string, shorten_value, MetaValue};
use checkpointui::model::{PathSplit, TensorInfo, TensorTy};
use checkpointui::tree::ModuleInfo;
use checkpointui::util::{parse_u64, saturating_add_u64, saturating_mul_u64, str_lex_lt,
    u64_to_string};

fn ti(ty: TensorTy, shape: Vec<u64>) -> TensorInfo {
    TensorInfo { ty, shape, size: 0, offset: 0 }
}

#[test]
fn decimal_rendering() {
    assert_eq!(u64_to_string(0), "0");
    assert_eq!(u64_to_string(907), "907");
    assert_eq!(u64_to_string(u64::MAX), "18446744073709551615");
    assert_eq!(i64_to_string(-12), "-12");
    assert_eq!(i64_to_string(i64::MIN), "-9223372036854775808");
}

#[test]
fn decimal_parsing() {
    assert_eq!(parse_u64("0"), Some(0));
    assert_eq!(parse_u64("18446744073709551615"), Some(u64::MAX));
    assert_eq!(parse_u64("18446744073709551616"), None);
    assert_eq!(parse_u64(""), None);
    assert_eq!(parse_u64("12a"), None);
}

#[test]
fn saturating_arithmetic() {
    assert_eq!(saturating_add_u64(u64::MAX - 1, 5), u64::MAX);
    assert_eq!(saturating_add_u64(2, 5), 7);
    assert_eq!(saturating_mul_u64(u64::MAX / 2, 3), u64::MAX);
    assert_eq!(saturating_mul_u64(6, 7), 42);
}

#[test]
fn lexicographic_order() {
    assert!(str_lex_lt("a", "b"));
    assert!(str_lex_lt("a", "a0"));
    assert!(!str_lex_lt("tensor2", "tensor10"));
    assert!(str_lex_lt("tensor10", "tensor2"));
    assert!(!str_lex_lt("x", "x"));
}

#[test]
fn words_little_and_big() {
    let b = [0x01u8, 0x02, 0x03, 0x04, 0x05, 0x06, 0x07, 0x08];
    assert_eq!(read_u16(&b, 0, true), 0x0201);
    assert_eq!(read_u16(&b, 0, false), 0x0102);
    assert_eq!(read_u32(&b, 0, true), 0x04030201);
    assert_eq!(read_u32(&b, 0, false), 0x01020304);
    assert_eq!(read_u64(&b, 0, true), 0x0807060504030201);
    assert_eq!(read_u64(&b, 0, false), 0x0102030405060708);
}

#[test]
fn word_chunking_drops_partial() {
    let b = [1u8, 0, 2, 0, 9];
    let ws = decode_u16s(&b, true);
    assert_eq!(ws, vec![1, 2]);
    let native = decode_u16s_ordered::<NE>(&b);
    assert!(native == vec![1u16, 2] || native == vec![256u16, 512]);
}

#[test]
fn type_labels() {
    assert_eq!(TensorTy::BF16.type_label(), "BF16");
    assert_eq!(TensorTy::F8_E5M2.type_label(), "F8_E5M2");
    assert_eq!(TensorTy::Ggml(12).type_label(), "GGML#12");
    assert_eq!(TensorTy::Unknown("X9".to_owned()).type_label(), "X9");
}

#[test]
fn split_names_into_segments() {
    let split = PathSplit::Delim('.');
    let keys = split.split("layer.0.weight");
    let texts: Vec<String> = keys.iter().map(|k| k.text_string()).collect();
    assert_eq!(texts, vec!["layer", "0", "weight"]);
    let lone = split.split("bias");
    assert_eq!(lone.len(), 1);
    assert_eq!(lone[0].text_string(), "bias");
    let dotty = split.split(".a.");
    let texts: Vec<String> = dotty.iter().map(|k| k.text_string()).collect();
    assert_eq!(texts, vec!["", "a", ""]);
}

#[test]
fn tree_totals_sum_leaves() {
    // Summing all leaf element counts gives the root's total.
    let split = PathSplit::Delim('.');
    let tensors = vec![
        ("a.b".to_owned(), ti(TensorTy::F32, vec![2, 3])),
        ("a.c".to_owned(), ti(TensorTy::F32, vec![4])),
        ("d".to_owned(), ti(TensorTy::F32, vec![5, 2])),
    ];
    let root = ModuleInfo::build_from_tensors(tensors, &split);
    assert_eq!(root.total_params, 6 + 4 + 10);
    assert_eq!(root.total_tensors, 3);
    let a = &root.children[0].1;
    assert_eq!(a.total_params, 10);
    assert_eq!(a.total_tensors, 2);
}

#[test]
fn tree_children_sorted_by_text() {
    let split = PathSplit::Delim('.');
    let tensors = vec![
        ("z".to_owned(), ti(TensorTy::F32, vec![1])),
        ("a".to_owned(), ti(TensorTy::F32, vec![1])),
        ("m".to_owned(), ti(TensorTy::F32, vec![1])),
    ];
    let root = ModuleInfo::build_from_tensors(tensors, &split);
    let names: Vec<String> = root.children.iter().map(|c| c.0.text_string()).collect();
    assert_eq!(names, vec!["a", "m", "z"]);
}

#[test]
fn flatten_merges_single_chains() {
    // A lone `layer.0.weight` first hangs under `layer` then `0`; the
    // two single-child interior nodes merge into one `layer.0` node
    // that keeps the tensor leaf `weight`.
    let split = PathSplit::Delim('.');
    let tensors = vec![("layer.0.weight".to_owned(), ti(TensorTy::F32, vec![4, 4]))];
    let mut root = ModuleInfo::build_from_tensors(tensors, &split);
    assert_eq!(root.children.len(), 1);
    assert_eq!(root.children[0].0.text_string(), "layer");
    assert_eq!(root.children[0].1.total_params, 16);
    root.flatten_single_children();
    assert_eq!(root.children.len(), 1);
    let merged = &root.children[0];
    assert_eq!(merged.0.text_string(), "layer.0");
    assert_eq!(merged.1.total_params, 16);
    assert_eq!(merged.1.children.len(), 1);
    assert_eq!(merged.1.children[0].0.text_string(), "weight");
    assert!(merged.1.children[0].1.tensor_info.is_some());
}

fn tree_equal(a: &ModuleInfo, b: &ModuleInfo) -> bool {
    if a.full_name.text_string() != b.full_name.text_string() {
        return false;
    }
    if a.total_params != b.total_params || a.total_tensors != b.total_tensors {
        return false;
    }
    if a.tensor_info.is_some() != b.tensor_info.is_some() {
        return false;
    }
    if a.children.len() != b.children.len() {
        return false;
    }
    for i in 0..a.children.len() {
        if a.children[i].0.text_string() != b.children[i].0.text_string() {
            return false;
        }
        if !tree_equal(&a.children[i].1, &b.children[i].1) {
            return false;
        }
    }
    true
}

#[test]
fn flatten_is_idempotent() {
    // Flattening an already flattened tree yields an identical tree.
    let split = PathSplit::Delim('.');
    let tensors = vec![
        ("blk.0.attn.q".to_owned(), ti(TensorTy::F32, vec![2])),
        ("blk.0.attn.k".to_owned(), ti(TensorTy::F32, vec![2])),
        ("blk.1.mlp.up.w".to_owned(), ti(TensorTy::F32, vec![3])),
        ("head".to_owned(), ti(TensorTy::F32, vec![7])),
    ];
    let tensors2 = tensors.clone();
    let mut once = ModuleInfo::build_from_tensors(tensors, &split);
    once.flatten_single_children();
    let mut twice = ModuleInfo::build_from_tensors(tensors2, &split);
    twice.flatten_single_children();
    twice.flatten_single_children();
    assert!(tree_equal(&once, &twice));
}

#[test]
fn histogram_bin_counts() {
    assert_eq!(bin_count_for(5, 5), 5);
    assert_eq!(bin_count_for(0, 20), 5);
    assert_eq!(bin_count_for(1000, 20), 20);
    assert_eq!(bin_count_for(60, 20), 12);
}

#[test]
fn histogram_bins_sum_to_mapped_values() {
    // The five values 1.0..=5.0 with max_bin_count 5 map one per bin,
    // and the bins sum to the input length.
    let data: Vec<f32> = vec![1.0, 2.0, 3.0, 4.0, 5.0];
    let bins = bin_count_for(data.len(), 5);
    assert_eq!(bins, 5);
    let left = 1.0f32;
    let right = 5.0f32;
    let scale = bins as f32 / (right - left);
    let bins_end = (bins - 1) as f32;
    let slots: Vec<Option<usize>> = data
        .iter()
        .map(|x| {
            let b = ((x - left) * scale).clamp(0.0, bins_end);
            if b.is_finite() { Some(b as usize) } else { None }
        })
        .collect();
    let counts = fill_bins(&slots, bins);
    assert_eq!(counts, vec![1, 1, 1, 1, 1]);
    assert_eq!(counts.iter().sum::<usize>(), data.len());
}

#[test]
fn histogram_bins_skip_non_finite() {
    let slots: Vec<Option<usize>> = vec![Some(0), None, Some(2), Some(0), None];
    let counts = fill_bins(&slots, 3);
    assert_eq!(counts, vec![2, 0, 1]);
    assert_eq!(counts.iter().sum::<usize>(), 3);
}

#[test]
fn sampling_draws_distinct_indices() {
    let idx = sample_indices(100, 10);
    assert_eq!(idx.len(), 10);
    for (i, a) in idx.iter().enumerate() {
        assert!(*a < 100);
        for b in idx.iter().skip(i + 1) {
            assert_ne!(*a, *b);
        }
    }
    assert_eq!(sample_indices(3, 10).len(), 3);
}

#[test]
fn gating_by_size() {
    assert!(initial_go(100, 100));
    assert!(!initial_go(101, 100));
}

#[test]
fn slot_machine_transitions() {
    assert_eq!(slot_step(SlotState::NotRequested, SlotEvent::Trigger), SlotState::Requested);
    assert_eq!(slot_step(SlotState::Requested, SlotEvent::Begin), SlotState::Computing);
    assert_eq!(slot_step(SlotState::Computing, SlotEvent::Finish), SlotState::Completed);
    assert_eq!(slot_step(SlotState::Computing, SlotEvent::Fail), SlotState::Failed);
    // The final states absorb every event.
    for ev in [SlotEvent::Trigger, SlotEvent::Begin, SlotEvent::Finish, SlotEvent::Fail] {
        assert_eq!(slot_step(SlotState::Completed, ev), SlotState::Completed);
        assert_eq!(slot_step(SlotState::Failed, ev), SlotState::Failed);
    }
}

#[test]
fn write_once_keeps_first_value() {
    let mut slot: WriteOnce<u32> = WriteOnce::new();
    assert!(slot.get().is_none());
    assert!(slot.set(7));
    assert!(!slot.set(9));
    assert_eq!(*slot.get(), Some(7));
}

#[test]
fn dropped_requests_are_never_stored() {
    // The worker's gate decision for a dropped request is an abort;
    // only a live, armed request proceeds to compute and store.
    assert_eq!(worker_gate(false, true), WorkerAction::Abort);
    assert_eq!(worker_gate(false, false), WorkerAction::Abort);
    assert_eq!(worker_gate(true, false), WorkerAction::Wait);
    assert_eq!(worker_gate(true, true), WorkerAction::Proceed);
}

#[test]
fn shorten_overlong_and_data_urls() {
    assert!(shorten_value(&MetaValue::Text("data:image/png;base64,xyz".to_owned())));
    assert!(!shorten_value(&MetaValue::Text("hello".to_owned())));
    let long = "x".repeat(10_001);
    assert!(shorten_value(&MetaValue::Text(long)));
    assert!(!shorten_value(&MetaValue::UInt(3)));
}

#[test]
fn flatten_metadata_paths() {
    let value = MetaValue::Object(vec![
        ("a".to_owned(), MetaValue::Object(vec![
            ("b".to_owned(), MetaValue::UInt(5)),
        ])),
        ("list".to_owned(), MetaValue::Array(vec![
            MetaValue::Bool(true),
            MetaValue::Null,
        ])),
        ("t".to_owned(), MetaValue::Text("v".to_owned())),
    ]);
    let flat = flatten_value(&value, &String::new()).unwrap();
    let flat: Vec<(String, String)> = flat;
    assert_eq!(flat, vec![
        ("a.b".to_owned(), "5".to_owned()),
        ("list.0".to_owned(), "true".to_owned()),
        ("list.1".to_owned(), "null".to_owned()),
        ("t".to_owned(), "v".to_owned()),
    ]);
    assert!(flatten_value(&MetaValue::F32Bits(0), &String::new()).is_err());
}

#[test]
fn keys_join_and_absolute() {
    let split = PathSplit::Delim('.');
    let keys = split.split("a.bb.c");
    let parent = &keys[0];
    let merged = parent.join(keys[1].clone());
    assert_eq!(merged.text_string(), "a.bb");
    let abs = keys[2].clone().absolute();
    assert_eq!(abs.text_string(), "a.bb.c");
}

#[test]
fn percentile_indices_of_the_sample() {
    assert_eq!(percentile_index(200, 5), 9);
    assert_eq!(percentile_index(200, 95), 189);
    assert_eq!(percentile_index(1, 50), 0);
}
