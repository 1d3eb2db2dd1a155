//! The safetensors container: framing of the JSON header behind an
//! 8-byte length prefix, extraction of the tensor directory and the
//! free-form metadata, and whole-header rewriting.

use vstd::prelude::*;
use vstd::utf8::encode_utf8;

use crate::AppError;
use crate::codec::{le64, read_u64};
use crate::meta::{MetaV, MetaValue, json_doc_of, parse_json, flatten_value, flatten_spec_v};
use crate::model::{PathSplit, TensorInfo, TensorTy, type_label_spec};
use crate::storage::Storage;
use crate::tree::{ModuleInfo, TensorInfoV, build_spec, entries_view, info_view};
use crate::util::{dec_str, push_char, u64_to_string};

verus! {

broadcast use vstd::std_specs::vec::group_vec_axioms, vstd::seq::group_seq_axioms, vstd::seq_lib::group_filter_ensures;

/// The sanity limit on the header: 100 MiB.
pub const HEADER_LIMIT_BYTES: u64 = 104857600;

/// True when the element type reads back from this dtype label.
pub open spec fn ty_matches(t: TensorTy, s: Seq<char>) -> bool {
    if s == "BOOL"@ {
        t == TensorTy::BOOL
    } else if s == "U8"@ {
        t == TensorTy::U8
    } else if s == "I8"@ {
        t == TensorTy::I8
    } else if s == "F8_E5M2"@ {
        t == TensorTy::F8_E5M2
    } else if s == "F8_E4M3"@ {
        t == TensorTy::F8_E4M3
    } else if s == "I16"@ {
        t == TensorTy::I16
    } else if s == "U16"@ {
        t == TensorTy::U16
    } else if s == "I32"@ {
        t == TensorTy::I32
    } else if s == "U32"@ {
        t == TensorTy::U32
    } else if s == "F16"@ {
        t == TensorTy::F16
    } else if s == "BF16"@ {
        t == TensorTy::BF16
    } else if s == "F32"@ {
        t == TensorTy::F32
    } else if s == "F64"@ {
        t == TensorTy::F64
    } else if s == "I64"@ {
        t == TensorTy::I64
    } else if s == "U64"@ {
        t == TensorTy::U64
    } else {
        t matches TensorTy::Unknown(x) && x@ == s
    }
}

/// Maps a dtype label to the element type it names.
fn ty_of_label(s: &String) -> (r: TensorTy)
    ensures
        ty_matches(r, s@),
{
    if s.eq(&"BOOL".to_owned()) {
        TensorTy::BOOL
    } else if s.eq(&"U8".to_owned()) {
        TensorTy::U8
    } else if s.eq(&"I8".to_owned()) {
        TensorTy::I8
    } else if s.eq(&"F8_E5M2".to_owned()) {
        TensorTy::F8_E5M2
    } else if s.eq(&"F8_E4M3".to_owned()) {
        TensorTy::F8_E4M3
    } else if s.eq(&"I16".to_owned()) {
        TensorTy::I16
    } else if s.eq(&"U16".to_owned()) {
        TensorTy::U16
    } else if s.eq(&"I32".to_owned()) {
        TensorTy::I32
    } else if s.eq(&"U32".to_owned()) {
        TensorTy::U32
    } else if s.eq(&"F16".to_owned()) {
        TensorTy::F16
    } else if s.eq(&"BF16".to_owned()) {
        TensorTy::BF16
    } else if s.eq(&"F32".to_owned()) {
        TensorTy::F32
    } else if s.eq(&"F64".to_owned()) {
        TensorTy::F64
    } else if s.eq(&"I64".to_owned()) {
        TensorTy::I64
    } else if s.eq(&"U64".to_owned()) {
        TensorTy::U64
    } else {
        TensorTy::Unknown(s.clone())
    }
}

/// The last value stored under `key` in an object's entries; with the
/// duplicate-free maps the JSON parse yields, the only one.
pub open spec fn obj_get(entries: Seq<(Seq<char>, MetaV)>, key: Seq<char>) -> Option<MetaV>
    decreases entries.len(),
{
    if entries.len() == 0 {
        None
    } else if entries.last().0 == key {
        Some(entries.last().1)
    } else {
        obj_get(entries.drop_last(), key)
    }
}

/// The dimension values of a shape array: every element an unsigned.
pub open spec fn dims_of(v: MetaV) -> Option<Seq<u64>> {
    match v {
        MetaV::Array(a) => if forall|i: int| 0 <= i < a.len() ==> (#[trigger] a[i]) is UInt {
            Some(Seq::new(a.len(), |i: int| a[i]->UInt_0))
        } else {
            None
        },
        _ => None,
    }
}

/// The start and end offsets of a `data_offsets` pair.
pub open spec fn offsets_of(v: MetaV) -> Option<(u64, u64)> {
    match v {
        MetaV::Array(a) => if a.len() == 2 && a[0] is UInt && a[1] is UInt {
            Some((a[0]->UInt_0, a[1]->UInt_0))
        } else {
            None
        },
        _ => None,
    }
}

/// True when a header entry's value describes the given descriptor:
/// dtype label, shape, and data offsets all read back.
pub open spec fn desc_matches(v: MetaV, info: TensorInfoV) -> bool {
    &&& v is Object
    &&& obj_get(v->Object_0, "dtype"@) matches Some(dv) && dv matches MetaV::Text(ds)
        && ty_matches_v(info.ty, ds)
    &&& obj_get(v->Object_0, "shape"@) matches Some(sv) && dims_of(sv) == Some(info.shape)
    &&& obj_get(v->Object_0, "data_offsets"@) matches Some(ov) && offsets_of(ov) matches Some(
        pr,
    ) && pr.0 <= pr.1 && pr.1 - pr.0 <= usize::MAX && info.size == pr.1 - pr.0 && info.offset
        == pr.0
}

/// `ty_matches`, restated for the view-level type.
pub open spec fn ty_matches_v(t: TensorTy, s: Seq<char>) -> bool {
    ty_matches(t, s)
}

/// True when a value is a proper metadata map: an object of texts.
pub open spec fn is_meta_obj(v: MetaV) -> bool {
    v is Object && forall|i: int| 0 <= i < v->Object_0.len() ==> (#[trigger] v->Object_0[
        i]).1 is Text
}

/// True when a `__metadata__` value is a proper map of text values
/// that reads back as the given pairs.
pub open spec fn meta_obj_matches(v: MetaV, pairs: Seq<(Seq<char>, Seq<char>)>) -> bool {
    &&& v is Object
    &&& pairs.len() == v->Object_0.len()
    &&& forall|i: int|
        0 <= i < pairs.len() ==> ((#[trigger] v->Object_0[i]).1 matches MetaV::Text(t)
            && pairs[i] == (v->Object_0[i].0, t))
}

/// The header entries that are tensors: everything but `__metadata__`.
pub open spec fn tensor_entries(entries: Seq<(Seq<char>, MetaV)>) -> Seq<(Seq<char>, MetaV)> {
    entries.filter(|e: (Seq<char>, MetaV)| e.0 != "__metadata__"@)
}

/// True when the parsed header bytes read back as this directory and
/// metadata: the bytes parse to a JSON object; its tensor entries, in
/// order, describe the directory; its `__metadata__` object, if any,
/// reads back as the metadata pairs.
pub open spec fn header_parsed(
    hb: Seq<u8>,
    dir: Seq<(Seq<char>, TensorInfoV)>,
    meta: Seq<(Seq<char>, Seq<char>)>,
) -> bool {
    &&& json_doc_of(hb) matches Some(doc)
    &&& doc is Object
    &&& ({
        let ts = tensor_entries(doc->Object_0);
        &&& dir.len() == ts.len()
        &&& forall|i: int|
            0 <= i < dir.len() ==> (#[trigger] dir[i]).0 == ts[i].0 && desc_matches(
                ts[i].1,
                dir[i].1,
            )
    })
    &&& forall|i: int|
        0 <= i < doc->Object_0.len() ==> ((#[trigger] doc->Object_0[i]).0 == "__metadata__"@
            ==> is_meta_obj(doc->Object_0[i].1))
    &&& match obj_get(doc->Object_0, "__metadata__"@) {
        Some(mv) => meta_obj_matches(mv, meta),
        None => meta.len() == 0,
    }
}

/// The text pairs of a raw string map.
pub open spec fn meta_pairs_view(m: Seq<(String, String)>) -> Seq<(Seq<char>, Seq<char>)> {
    m.map_values(|pr: (String, String)| (pr.0@, pr.1@))
}


/// Reads the header length out of the 8-byte prefix: succeeds exactly
/// on a full prefix whose little-endian value stays within the 100 MiB
/// sanity limit, and refuses an oversized header with exactly the
/// limit error.
pub fn header_len_of_prefix(prefix: &Vec<u8>) -> (r: Result<u64, AppError>)
    ensures
        match r {
            Ok(n) => prefix@.len() >= 8 && n == le64(prefix@, 0) && n <= HEADER_LIMIT_BYTES,
            Err(e) => if prefix@.len() < 8 {
                e == AppError::HeaderJson
            } else {
                e == AppError::HeaderTooLarge && le64(prefix@, 0) > HEADER_LIMIT_BYTES
            },
        },
{
    if prefix.len() < 8 {
        return Err(AppError::HeaderJson);
    }
    let n = read_u64(prefix.as_slice(), 0, true);
    if n > HEADER_LIMIT_BYTES {
        return Err(AppError::HeaderTooLarge);
    }
    Ok(n)
}

/// True when a reader state holds the parse of some header bytes,
/// with the data section starting right after them.
pub open spec fn opened_from_some_header<S>(st: Safetensors<S>) -> bool {
    exists|hb: Seq<u8>|
        {
            &&& #[trigger] header_parsed(
                hb,
                entries_view(st.tensors@),
                meta_pairs_view(st.user_meta@),
            )
            &&& st.data_offset == 8 + hb.len()
        }
}

/// A safetensors container bound to its byte storage.
pub struct Safetensors<S> {
    /// The backing byte storage.
    pub storage: S,
    /// The absolute file offset where the tensor data begins.
    pub data_offset: u64,
    /// The tensor directory: flat name to descriptor.
    pub tensors: Vec<(String, TensorInfo)>,
    /// The free-form `__metadata__` pairs, as raw strings.
    pub user_meta: Vec<(String, String)>,
}

/// Parses the JSON header bytes into the tensor directory and the
/// metadata pairs: succeeds exactly on headers whose parse is a JSON
/// object of well-formed tensor entries and, optionally, a string map
/// under `__metadata__`.
pub fn parse_header(bytes: &Vec<u8>) -> (r: Result<
    (Vec<(String, TensorInfo)>, Vec<(String, String)>),
    AppError,
>)
    ensures
        match r {
            Ok((dir, meta)) => header_parsed(
                bytes@,
                entries_view(dir@),
                meta@.map_values(|pr: (String, String)| (pr.0@, pr.1@)),
            ),
            Err(_) => !exists|
                dirv: Seq<(Seq<char>, TensorInfoV)>,
                metav: Seq<(Seq<char>, Seq<char>)>,
            | header_parsed(bytes@, dirv, metav),
        },
{
    let doc = match parse_json(bytes.as_slice()) {
        Some(d) => d,
        None => {
            proof {
                assert(forall|dirv: Seq<(Seq<char>, TensorInfoV)>, metav: Seq<
                    (Seq<char>, Seq<char>),
                >| !header_parsed(bytes@, dirv, metav));
            }
            return Err(AppError::HeaderJson);
        },
    };
    let entries = match doc {
        MetaValue::Object(entries) => entries,
        other => {
            proof {
                assert(!(other.view_meta() is Object));
                assert(forall|dirv: Seq<(Seq<char>, TensorInfoV)>, metav: Seq<
                    (Seq<char>, Seq<char>),
                >| !header_parsed(bytes@, dirv, metav));
            }
            return Err(AppError::HeaderJson);
        },
    };
    let ghost ev = match json_doc_of(bytes@) {
        Some(d) => d->Object_0,
        None => Seq::empty(),
    };
    proof {
        assert(json_doc_of(bytes@) matches Some(d) && d is Object);
        assert(ev.len() == entries@.len());
        assert(forall|j: int|
            0 <= j < entries@.len() ==> ev[j] == ((#[trigger] entries@[j]).0@, entries@[
                j].1.view_meta()));
    }
    let n = entries.len();
    let mut dir: Vec<(String, TensorInfo)> = Vec::new();
    let mut meta: Vec<(String, String)> = Vec::new();
    let mut i: usize = 0;
    proof {
        assert(ev.take(0).filter(|e: (Seq<char>, MetaV)| e.0 != "__metadata__"@) =~= Seq::<
            (Seq<char>, MetaV),
        >::empty());
    }
    while i < n
        invariant
            0 <= i <= n,
            n == entries@.len(),
            ev.len() == entries@.len(),
            json_doc_of(bytes@) matches Some(d) && d is Object && d->Object_0 == ev,
            forall|j: int|
                0 <= j < entries@.len() ==> ev[j] == ((#[trigger] entries@[j]).0@, entries@[
                    j].1.view_meta()),
            ({
                let ts = tensor_entries(ev.take(i as int));
                &&& dir@.len() == ts.len()
                &&& forall|k: int|
                    0 <= k < dir@.len() ==> (#[trigger] entries_view(dir@)[k]).0 == ts[k].0
                        && desc_matches(ts[k].1, entries_view(dir@)[k].1)
            }),
            match obj_get(ev.take(i as int), "__metadata__"@) {
                Some(mv) => meta_obj_matches(
                    mv,
                    meta@.map_values(|pr: (String, String)| (pr.0@, pr.1@)),
                ),
                None => meta@.len() == 0,
            },
            forall|j: int|
                0 <= j < i ==> ((#[trigger] ev[j]).0 == "__metadata__"@ ==> is_meta_obj(
                    ev[j].1,
                )),
        decreases n - i,
    {
        proof {
            assert(ev.take(i + 1).drop_last() =~= ev.take(i as int));
            assert(ev.take(i + 1).last() == ev[i as int]);
            assert(ev.take(i + 1) =~= ev.take(i as int).push(ev[i as int]));
        }
        let is_meta = entries[i].0.eq(&"__metadata__".to_owned());
        if is_meta {
            let mes = match &entries[i].1 {
                MetaValue::Object(mes) => mes,
                _ => {
                    proof {
                        assert(!(entries@[i as int].1.view_meta() is Object));
                        assert(!is_meta_obj(ev[i as int].1));
                        assert(forall|dirv: Seq<(Seq<char>, TensorInfoV)>, metav: Seq<
                            (Seq<char>, Seq<char>),
                        >| !header_parsed(bytes@, dirv, metav));
                    }
                    return Err(AppError::HeaderJson);
                },
            };
            let mut fresh: Vec<(String, String)> = Vec::new();
            let m = mes.len();
            let ghost mev = match entries@[i as int].1.view_meta() {
                MetaV::Object(x) => x,
                _ => Seq::empty(),
            };
            let mut j: usize = 0;
            proof {
                assert(ev[i as int].0 == "__metadata__"@);
            }
            while j < m
                invariant
                    0 <= j <= m,
                    m == mes@.len(),
                    json_doc_of(bytes@) matches Some(d) && d is Object && d->Object_0 == ev,
                    0 <= i < ev.len(),
                    ev[i as int] == (entries@[i as int].0@, entries@[i as int].1.view_meta()),
                    ev[i as int].0 == "__metadata__"@,
                    entries@[i as int].1.view_meta() == MetaV::Object(mev),
                    mev.len() == mes@.len(),
                    forall|k: int|
                        0 <= k < mes@.len() ==> mev[k] == ((#[trigger] mes@[k]).0@, mes@[
                            k].1.view_meta()),
                    fresh@.len() == j,
                    forall|k: int|
                        0 <= k < j ==> ((#[trigger] mev[k]).1 matches MetaV::Text(t) && (
                        fresh@[k].0@,
                        fresh@[k].1@,
                        ) == (mev[k].0, t)),
                decreases m - j,
            {
                let text = match &mes[j].1 {
                    MetaValue::Text(t) => t.clone(),
                    _ => {
                        proof {
                            assert(!(mev[j as int].1 is Text));
                            assert(!is_meta_obj(ev[i as int].1));
                            assert(forall|dirv: Seq<(Seq<char>, TensorInfoV)>, metav: Seq<
                                (Seq<char>, Seq<char>),
                            >| !header_parsed(bytes@, dirv, metav));
                        }
                        return Err(AppError::HeaderJson);
                    },
                };
                fresh.push((mes[j].0.clone(), text));
                j += 1;
            }
            meta = fresh;
            proof {
                assert(is_meta_obj(ev[i as int].1));
                assert(obj_get(ev.take(i + 1), "__metadata__"@) == Some(
                    entries@[i as int].1.view_meta(),
                ));
                assert(meta_obj_matches(
                    entries@[i as int].1.view_meta(),
                    meta@.map_values(|pr: (String, String)| (pr.0@, pr.1@)),
                ));
                assert(ev[i as int].0 == "__metadata__"@);
                ev.take(i as int).lemma_filter_push(
                    ev[i as int],
                    |e: (Seq<char>, MetaV)| e.0 != "__metadata__"@,
                );
                assert(tensor_entries(ev.take(i + 1)) =~= tensor_entries(ev.take(i as int)));
            }
        } else {
            proof {
                assert(ev[i as int].0 != "__metadata__"@);
                ev.take(i as int).lemma_filter_push(
                    ev[i as int],
                    |e: (Seq<char>, MetaV)| e.0 != "__metadata__"@,
                );
            }
            let obj = match &entries[i].1 {
                MetaValue::Object(obj) => obj,
                _ => {
                    proof {
                        assert(!(ev[i as int].1 is Object));
                        assert(forall|info: TensorInfoV| !desc_matches(ev[i as int].1, info));
                        assert(forall|dirv: Seq<(Seq<char>, TensorInfoV)>, metav: Seq<
                            (Seq<char>, Seq<char>),
                        >| !header_parsed(bytes@, dirv, metav)) by {
                            lemma_no_witness(bytes@, ev, i as int);
                        }
                    }
                    return Err(AppError::BadTensorEntry);
                },
            };
            let info = match parse_tensor_entry(obj, Ghost(entries@[i as int].1.view_meta())) {
                Ok(info) => info,
                Err(e) => {
                    proof {
                        assert(forall|info: TensorInfoV| !desc_matches(ev[i as int].1, info));
                        assert(forall|dirv: Seq<(Seq<char>, TensorInfoV)>, metav: Seq<
                            (Seq<char>, Seq<char>),
                        >| !header_parsed(bytes@, dirv, metav)) by {
                            lemma_no_witness(bytes@, ev, i as int);
                        }
                    }
                    return Err(e);
                },
            };
            let ghost prev_dir = dir@;
            dir.push((entries[i].0.clone(), info));
            proof {
                assert(ev[i as int].0 != "__metadata__"@);
                ev.take(i as int).lemma_filter_push(
                    ev[i as int],
                    |e: (Seq<char>, MetaV)| e.0 != "__metadata__"@,
                );
                assert(tensor_entries(ev.take(i + 1)) =~= tensor_entries(ev.take(i as int))
                    .push(ev[i as int]));
                assert(entries_view(dir@) =~= entries_view(prev_dir).push(
                    (entries@[i as int].0@, info_view(info)),
                ));
                assert(obj_get(ev.take(i + 1), "__metadata__"@) == obj_get(
                    ev.take(i as int),
                    "__metadata__"@,
                ));
            }
        }
        i += 1;
    }
    proof {
        assert(ev.take(n as int) =~= ev);
    }
    Ok((dir, meta))
}

/// Parses one tensor entry's object into a descriptor: succeeds
/// exactly when some descriptor reads back from the entry.
fn parse_tensor_entry(obj: &Vec<(String, MetaValue)>, Ghost(v): Ghost<MetaV>) -> (r: Result<
    TensorInfo,
    AppError,
>)
    requires
        v is Object,
        v->Object_0.len() == obj@.len(),
        forall|k: int|
            0 <= k < obj@.len() ==> v->Object_0[k] == ((#[trigger] obj@[k]).0@, obj@[
                k].1.view_meta()),
    ensures
        match r {
            Ok(info) => desc_matches(v, info_view(info)),
            Err(e) => e == AppError::BadTensorEntry && !exists|info: TensorInfoV|
                desc_matches(v, info),
        },
{
    let dtype = match obj_find(obj, "dtype", Ghost(v)) {
        Some(found) => match found {
            MetaValue::Text(t) => t,
            other => {
                proof {
                    assert(!(other.view_meta() is Text));
                    assert(forall|info: TensorInfoV| !desc_matches(v, info));
                }
                return Err(AppError::BadTensorEntry);
            },
        },
        None => {
            proof {
                assert(forall|info: TensorInfoV| !desc_matches(v, info));
            }
            return Err(AppError::BadTensorEntry);
        },
    };
    let shape_v = match obj_find(obj, "shape", Ghost(v)) {
        Some(found) => match found {
            MetaValue::Array(a) => a,
            other => {
                proof {
                    assert(!(other.view_meta() is Array));
                    assert(forall|info: TensorInfoV| !desc_matches(v, info));
                }
                return Err(AppError::BadTensorEntry);
            },
        },
        None => {
            proof {
                assert(forall|info: TensorInfoV| !desc_matches(v, info));
            }
            return Err(AppError::BadTensorEntry);
        },
    };
    let offs_v = match obj_find(obj, "data_offsets", Ghost(v)) {
        Some(found) => match found {
            MetaValue::Array(a) => a,
            other => {
                proof {
                    assert(!(other.view_meta() is Array));
                    assert(forall|info: TensorInfoV| !desc_matches(v, info));
                }
                return Err(AppError::BadTensorEntry);
            },
        },
        None => {
            proof {
                assert(forall|info: TensorInfoV| !desc_matches(v, info));
            }
            return Err(AppError::BadTensorEntry);
        },
    };
    let ghost shape_mv = match obj_get(v->Object_0, "shape"@) {
        Some(x) => x,
        None => MetaV::Null,
    };
    let ghost offs_mv = match obj_get(v->Object_0, "data_offsets"@) {
        Some(x) => x,
        None => MetaV::Null,
    };
    let m = shape_v.len();
    let mut shape: Vec<u64> = Vec::new();
    let mut j: usize = 0;
    while j < m
        invariant
            0 <= j <= m,
            m == shape_v@.len(),
            v is Object,
            obj_get(v->Object_0, "shape"@) == Some(shape_mv),
            shape_mv is Array,
            shape_mv->Array_0.len() == shape_v@.len(),
            forall|k: int|
                0 <= k < shape_v@.len() ==> shape_mv->Array_0[k] == (#[trigger] shape_v@[
                    k]).view_meta(),
            shape@.len() == j,
            forall|k: int|
                0 <= k < j ==> (#[trigger] shape_mv->Array_0[k]) is UInt && shape@[k]
                    == shape_mv->Array_0[k]->UInt_0,
        decreases m - j,
    {
        let d = match &shape_v[j] {
            MetaValue::UInt(d) => *d,
            _ => {
                proof {
                    assert(!(shape_mv->Array_0[j as int] is UInt));
                    assert(dims_of(shape_mv) is None);
                    assert(forall|info: TensorInfoV| !desc_matches(v, info));
                }
                return Err(AppError::BadTensorEntry);
            },
        };
        shape.push(d);
        j += 1;
    }
    if offs_v.len() != 2 {
        proof {
            assert(offs_mv->Array_0.len() == offs_v@.len());
            assert(offsets_of(offs_mv) is None);
            assert(forall|info: TensorInfoV| !desc_matches(v, info));
        }
        return Err(AppError::BadTensorEntry);
    }
    proof {
        assert(offs_mv->Array_0[0] == offs_v@[0].view_meta());
        assert(offs_mv->Array_0[1] == offs_v@[1].view_meta());
    }
    let a = match &offs_v[0] {
        MetaValue::UInt(a) => *a,
        _ => {
            proof {
                assert(!(offs_mv->Array_0[0] is UInt));
                assert(offsets_of(offs_mv) is None);
                assert(forall|info: TensorInfoV| !desc_matches(v, info));
            }
            return Err(AppError::BadTensorEntry);
        },
    };
    let b = match &offs_v[1] {
        MetaValue::UInt(b) => *b,
        _ => {
            proof {
                assert(!(offs_mv->Array_0[1] is UInt));
                assert(offsets_of(offs_mv) is None);
                assert(forall|info: TensorInfoV| !desc_matches(v, info));
            }
            return Err(AppError::BadTensorEntry);
        },
    };
    if b < a {
        proof {
            assert(offsets_of(offs_mv) == Some((a, b)));
            assert(forall|info: TensorInfoV| !desc_matches(v, info));
        }
        return Err(AppError::BadTensorEntry);
    }
    if b - a > usize::MAX as u64 {
        proof {
            assert(offsets_of(offs_mv) == Some((a, b)));
            assert(forall|info: TensorInfoV| !desc_matches(v, info));
        }
        return Err(AppError::BadTensorEntry);
    }
    let ty = ty_of_label(&dtype);
    proof {
        assert(offsets_of(offs_mv) == Some((a, b)));
    }
    let info = TensorInfo { ty, shape, size: (b - a) as usize, offset: a };
    proof {
        assert(obj_get(v->Object_0, "dtype"@) == Some(MetaV::Text(dtype@)));
        assert(ty_matches_v(info_view(info).ty, dtype@));
        assert(dims_of(shape_mv) matches Some(ds) && ds =~= info.shape@);
        assert(dims_of(shape_mv) == Some(info_view(info).shape));
        assert(desc_matches(v, info_view(info)));
    }
    Ok(info)
}


/// When one tensor entry of the header can stand for no descriptor,
/// no directory and metadata read back from the header at all.
proof fn lemma_no_witness(hb: Seq<u8>, ev: Seq<(Seq<char>, MetaV)>, i: int)
    requires
        json_doc_of(hb) matches Some(d) && d is Object && d->Object_0 == ev,
        0 <= i < ev.len(),
        ev[i].0 != "__metadata__"@,
        forall|info: TensorInfoV| !desc_matches(ev[i].1, info),
    ensures
        forall|dirv: Seq<(Seq<char>, TensorInfoV)>, metav: Seq<(Seq<char>, Seq<char>)>|
            !header_parsed(hb, dirv, metav),
{
    let ts = tensor_entries(ev);
    let pre = tensor_entries(ev.take(i));
    let k0 = pre.len() as int;
    assert(ev =~= ev.take(i + 1) + ev.skip(i + 1));
    Seq::filter_distributes_over_add(
        ev.take(i + 1),
        ev.skip(i + 1),
        |e: (Seq<char>, MetaV)| e.0 != "__metadata__"@,
    );
    assert(ev.take(i + 1) =~= ev.take(i).push(ev[i]));
    ev.take(i).lemma_filter_push(ev[i], |e: (Seq<char>, MetaV)| e.0 != "__metadata__"@);
    assert(tensor_entries(ev.take(i + 1)) == pre.push(ev[i]));
    assert(ts == tensor_entries(ev.take(i + 1) + ev.skip(i + 1)));
    assert(ts =~= pre.push(ev[i]) + tensor_entries(ev.skip(i + 1)));
    assert(k0 < ts.len());
    assert(ts[k0] == ev[i]);
    assert forall|dirv: Seq<(Seq<char>, TensorInfoV)>, metav: Seq<(Seq<char>, Seq<char>)>|
        !header_parsed(hb, dirv, metav) by {
        if header_parsed(hb, dirv, metav) {
            assert(dirv.len() == ts.len());
            assert(desc_matches(ts[k0].1, dirv[k0].1));
            assert(false);
        }
    }
}

/// Finds the last entry stored under `key`, handing its value out by
/// clone.
fn obj_find(obj: &Vec<(String, MetaValue)>, key: &str, Ghost(v): Ghost<MetaV>) -> (r: Option<
    MetaValue,
>)
    requires
        v is Object,
        v->Object_0.len() == obj@.len(),
        forall|k: int|
            0 <= k < obj@.len() ==> v->Object_0[k] == ((#[trigger] obj@[k]).0@, obj@[
                k].1.view_meta()),
    ensures
        match r {
            Some(m) => obj_get(v->Object_0, key@) == Some(m.view_meta()),
            None => obj_get(v->Object_0, key@) is None,
        },
{
    let ghost entries = v->Object_0;
    let n = obj.len();
    let mut i: usize = n;
    proof {
        assert(entries.take(n as int) =~= entries);
    }
    while i > 0
        invariant
            0 <= i <= n,
            n == obj@.len(),
            entries == v->Object_0,
            entries.len() == obj@.len(),
            forall|k: int|
                0 <= k < obj@.len() ==> entries[k] == ((#[trigger] obj@[k]).0@, obj@[
                    k].1.view_meta()),
            obj_get(entries, key@) == obj_get(entries.take(i as int), key@),
        decreases i,
    {
        proof {
            assert(entries.take(i as int).last() == entries[i - 1]);
            assert(entries.take(i as int).drop_last() =~= entries.take(i - 1));
        }
        let hit = obj[i - 1].0.eq(&key.to_owned());
        if hit {
            return Some(obj[i - 1].1.clone());
        }
        i -= 1;
    }
    proof {
        assert(entries.take(0) =~= Seq::<(Seq<char>, MetaV)>::empty());
    }
    None
}


/// The escape of one character inside a JSON string: quotes and
/// backslashes prefixed, control characters spelled `\u00XX`.
pub open spec fn esc_char(c: char) -> Seq<char> {
    if c == '"' {
        seq!['\\', '"']
    } else if c == '\\' {
        seq!['\\', '\\']
    } else if (c as u32) < 32 {
        seq!['\\', 'u', '0', '0', hex_digit(((c as u32) / 16) as int), hex_digit(((c as u32) % 16) as int)]
    } else {
        seq![c]
    }
}

/// The lower-case hex digit for `d`.
pub open spec fn hex_digit(d: int) -> char {
    if d < 10 {
        ((d + 48) as u8) as char
    } else {
        ((d + 87) as u8) as char
    }
}

/// The escaped text of a JSON string body.
pub open spec fn esc(s: Seq<char>) -> Seq<char>
    decreases s.len(),
{
    if s.len() == 0 {
        Seq::empty()
    } else {
        esc(s.drop_last()) + esc_char(s.last())
    }
}

/// A quoted, escaped JSON string.
pub open spec fn ser_string(s: Seq<char>) -> Seq<char> {
    seq!['"'] + esc(s) + seq!['"']
}

/// The comma-joined decimal dimensions of a shape.
pub open spec fn ser_dims(ds: Seq<u64>) -> Seq<char>
    decreases ds.len(),
{
    if ds.len() == 0 {
        Seq::empty()
    } else if ds.len() == 1 {
        dec_str(ds[0] as nat)
    } else {
        ser_dims(ds.drop_last()) + seq![','] + dec_str(ds.last() as nat)
    }
}

/// One serialized tensor entry, preceded by its separating comma.
pub open spec fn ser_tensor(name: Seq<char>, info: TensorInfoV) -> Seq<char> {
    seq![','] + ser_string(name) + seq![':', '{'] + "\"dtype\":"@ + ser_string(
        type_label_spec_v(info.ty),
    ) + ",\"shape\":["@ + ser_dims(info.shape) + "],\"data_offsets\":["@ + dec_str(
        info.offset,
    ) + seq![','] + dec_str((info.offset + info.size) as nat) + seq![']', '}']
}

/// The display label of a view-level element type.
pub open spec fn type_label_spec_v(t: TensorTy) -> Seq<char> {
    type_label_spec(t)
}

/// The serialized tensor entries, in order.
pub open spec fn ser_tensors(dir: Seq<(Seq<char>, TensorInfoV)>) -> Seq<char>
    decreases dir.len(),
{
    if dir.len() == 0 {
        Seq::empty()
    } else {
        ser_tensors(dir.drop_last()) + ser_tensor(dir.last().0, dir.last().1)
    }
}

/// The serialized metadata pairs, each preceded by its separating
/// comma except the first.
pub open spec fn ser_meta_pairs(pairs: Seq<(Seq<char>, Seq<char>)>) -> Seq<char>
    decreases pairs.len(),
{
    if pairs.len() == 0 {
        Seq::empty()
    } else {
        let entry = ser_string(pairs.last().0) + seq![':'] + ser_string(pairs.last().1);
        if pairs.len() == 1 {
            entry
        } else {
            ser_meta_pairs(pairs.drop_last()) + seq![','] + entry
        }
    }
}

/// The whole serialized header: the metadata object first, then every
/// tensor entry sorted by data offset.
pub open spec fn ser_header(
    meta: Seq<(Seq<char>, Seq<char>)>,
    dir: Seq<(Seq<char>, TensorInfoV)>,
) -> Seq<char> {
    seq!['{'] + "\"__metadata__\":{"@ + ser_meta_pairs(meta) + seq!['}'] + ser_tensors(dir)
        + seq!['}']
}

/// Appends the escaped form of a string's characters.
fn push_escaped(out: &mut String, s: &String)
    ensures
        final(out)@ == old(out)@ + esc(s@),
{
    let n = s.as_str().unicode_len();
    let mut i: usize = 0;
    proof {
        assert(esc(s@.take(0)) =~= Seq::<char>::empty());
        assert(old(out)@ + esc(s@.take(0)) =~= old(out)@);
    }
    while i < n
        invariant
            0 <= i <= n,
            n == s@.len(),
            out@ == old(out)@ + esc(s@.take(i as int)),
        decreases n - i,
    {
        let c = s.as_str().get_char(i);
        proof {
            assert(s@.take(i + 1).drop_last() =~= s@.take(i as int));
            assert(s@.take(i + 1).last() == s@[i as int]);
        }
        if c == '"' {
            push_char(out, '\\');
            push_char(out, '"');
        } else if c == '\\' {
            push_char(out, '\\');
            push_char(out, '\\');
        } else if (c as u32) < 32 {
            let code = c as u32;
            push_char(out, '\\');
            push_char(out, 'u');
            push_char(out, '0');
            push_char(out, '0');
            let hi = code / 16;
            let lo = code % 16;
            let hc: char = if hi < 10 {
                ((hi + 48) as u8) as char
            } else {
                ((hi + 87) as u8) as char
            };
            let lc: char = if lo < 10 {
                ((lo + 48) as u8) as char
            } else {
                ((lo + 87) as u8) as char
            };
            push_char(out, hc);
            push_char(out, lc);
            proof {
                assert(out@ =~= old(out)@ + esc(s@.take(i + 1)));
            }
        } else {
            push_char(out, c);
        }
        proof {
            assert(out@ =~= old(out)@ + esc(s@.take(i + 1)));
        }
        i += 1;
    }
    proof {
        assert(s@.take(n as int) =~= s@);
    }
}

/// Appends a quoted, escaped JSON string.
fn push_ser_string(out: &mut String, s: &String)
    ensures
        final(out)@ == old(out)@ + ser_string(s@),
{
    push_char(out, '"');
    push_escaped(out, s);
    push_char(out, '"');
    proof {
        assert(final(out)@ =~= old(out)@ + ser_string(s@));
    }
}

/// Relies on `String::into_bytes`: the bytes of a string are its UTF-8
/// encoding.
#[verifier::external_body]
fn string_to_bytes(s: String) -> (r: Vec<u8>)
    ensures
        r@ == encode_utf8(s@),
{
    s.into_bytes()
}

/// The little-endian bytes of a 64-bit value.
fn le_bytes_of_u64(n: u64) -> (r: Vec<u8>)
    ensures
        r@.len() == 8,
        le64(r@, 0) == n,
{
    let mut out: Vec<u8> = Vec::new();
    let b0 = (n % 256) as u8;
    let n1 = n / 256;
    let b1 = (n1 % 256) as u8;
    let n2 = n1 / 256;
    let b2 = (n2 % 256) as u8;
    let n3 = n2 / 256;
    let b3 = (n3 % 256) as u8;
    let n4 = n3 / 256;
    let b4 = (n4 % 256) as u8;
    let n5 = n4 / 256;
    let b5 = (n5 % 256) as u8;
    let n6 = n5 / 256;
    let b6 = (n6 % 256) as u8;
    let n7 = n6 / 256;
    let b7 = (n7 % 256) as u8;
    out.push(b0);
    out.push(b1);
    out.push(b2);
    out.push(b3);
    out.push(b4);
    out.push(b5);
    out.push(b6);
    out.push(b7);
    proof {
        assert(n7 / 256 == 0);
        assert(le64(out@, 0) == n);
    }
    out
}

/// Builds the serialized header bytes out of metadata pairs and a
/// tensor directory; fails exactly when a tensor's end offset leaves
/// `u64`.
#[verifier::rlimit(100)]
pub fn build_header(meta: &Vec<(String, String)>, dir: &Vec<(String, TensorInfo)>) -> (r: Result<
    Vec<u8>,
    AppError,
>)
    ensures
        match r {
            Ok(b) => b@ == encode_utf8(
                ser_header(
                    meta@.map_values(|pr: (String, String)| (pr.0@, pr.1@)),
                    entries_view(dir@),
                ),
            ) && forall|j: int|
                0 <= j < dir@.len() ==> (#[trigger] entries_view(dir@)[j]).1.offset
                    + entries_view(dir@)[j].1.size <= u64::MAX,
            Err(e) => e == AppError::SizeOverflow && exists|j: int|
                0 <= j < dir@.len() && (#[trigger] entries_view(dir@)[j]).1.offset
                    + entries_view(dir@)[j].1.size > u64::MAX,
        },
{
    let ghost metav = meta@.map_values(|pr: (String, String)| (pr.0@, pr.1@));
    let ghost dirv = entries_view(dir@);
    let mut out = String::new();
    push_char(&mut out, '{');
    out.append("\"__metadata__\":{");
    let n = meta.len();
    let mut i: usize = 0;
    proof {
        assert(ser_meta_pairs(metav.take(0)) =~= Seq::<char>::empty());
        assert(out@ =~= seq!['{'] + "\"__metadata__\":{"@ + ser_meta_pairs(metav.take(0)));
    }
    while i < n
        invariant
            0 <= i <= n,
            n == meta@.len(),
            metav == meta@.map_values(|pr: (String, String)| (pr.0@, pr.1@)),
            metav.len() == n,
            out@ == seq!['{'] + "\"__metadata__\":{"@ + ser_meta_pairs(metav.take(i as int)),
        decreases n - i,
    {
        proof {
            assert(metav.take(i + 1).drop_last() =~= metav.take(i as int));
            assert(metav.take(i + 1).last() == metav[i as int]);
            assert(metav[i as int] == (meta@[i as int].0@, meta@[i as int].1@));
        }
        if i > 0 {
            push_char(&mut out, ',');
        }
        push_ser_string(&mut out, &meta[i].0);
        push_char(&mut out, ':');
        push_ser_string(&mut out, &meta[i].1);
        proof {
            assert(out@ =~= seq!['{'] + "\"__metadata__\":{"@ + ser_meta_pairs(
                metav.take(i + 1),
            ));
        }
        i += 1;
    }
    proof {
        assert(metav.take(n as int) =~= metav);
    }
    push_char(&mut out, '}');
    let m = dir.len();
    let mut j: usize = 0;
    let ghost base = out@;
    proof {
        assert(ser_tensors(dirv.take(0)) =~= Seq::<char>::empty());
        assert(out@ =~= base + ser_tensors(dirv.take(0)));
    }
    while j < m
        invariant
            0 <= j <= m,
            m == dir@.len(),
            dirv == entries_view(dir@),
            dirv.len() == m,
            base == seq!['{'] + "\"__metadata__\":{"@ + ser_meta_pairs(metav) + seq!['}'],
            out@ == base + ser_tensors(dirv.take(j as int)),
            forall|k: int|
                0 <= k < j ==> (#[trigger] dirv[k]).1.offset + dirv[k].1.size <= u64::MAX,
        decreases m - j,
    {
        proof {
            assert(dirv.take(j + 1).drop_last() =~= dirv.take(j as int));
            assert(dirv.take(j + 1).last() == dirv[j as int]);
            assert(dirv[j as int] == (dir@[j as int].0@, info_view(dir@[j as int].1)));
        }
        let info = &dir[j].1;
        let end = match info.offset.checked_add(info.size as u64) {
            Some(e) => e,
            None => {
                proof {
                    assert(dirv[j as int].1.offset + dirv[j as int].1.size > u64::MAX);
                }
                return Err(AppError::SizeOverflow);
            },
        };
        push_char(&mut out, ',');
        push_ser_string(&mut out, &dir[j].0);
        push_char(&mut out, ':');
        push_char(&mut out, '{');
        out.append("\"dtype\":");
        let label = info.ty.type_label();
        push_ser_string(&mut out, &label);
        out.append(",\"shape\":[");
        let ghost shape_base = out@;
        let nd = info.shape.len();
        let mut k: usize = 0;
        proof {
            assert(ser_dims(info.shape@.take(0)) =~= Seq::<char>::empty());
            assert(out@ =~= shape_base + ser_dims(info.shape@.take(0)));
        }
        while k < nd
            invariant
                0 <= k <= nd,
                nd == dir@[j as int].1.shape@.len(),
                j < dir@.len(),
                out@ == shape_base + ser_dims(dir@[j as int].1.shape@.take(k as int)),
            decreases nd - k,
        {
            let ghost shp = dir@[j as int].1.shape@;
            proof {
                assert(shp.take(k + 1).drop_last() =~= shp.take(k as int));
                assert(shp.take(k + 1).last() == shp[k as int]);
            }
            if k > 0 {
                push_char(&mut out, ',');
            }
            let d = dir[j].1.shape[k];
            let txt = u64_to_string(d);
            let ghost before_app = out@;
            out.append(txt.as_str());
            proof {
                assert(out@ =~= shape_base + ser_dims(shp.take(k + 1)));
            }
            k += 1;
        }
        proof {
            assert(dir@[j as int].1.shape@.take(nd as int) =~= dir@[j as int].1.shape@);
        }
        out.append("],\"data_offsets\":[");
        let off_txt = u64_to_string(info.offset);
        out.append(off_txt.as_str());
        push_char(&mut out, ',');
        let end_txt = u64_to_string(end);
        out.append(end_txt.as_str());
        push_char(&mut out, ']');
        push_char(&mut out, '}');
        proof {
            assert(out@ =~= base + ser_tensors(dirv.take(j + 1)));
        }
        j += 1;
    }
    proof {
        assert(dirv.take(m as int) =~= dirv);
    }
    push_char(&mut out, '}');
    proof {
        assert(out@ =~= ser_header(metav, dirv));
    }
    Ok(string_to_bytes(out))
}


/// A free-form metadata string as `metadata()` coerces it: the value
/// its text parses to as one JSON document, else the raw text.
pub open spec fn coerce_text(t: Seq<char>) -> MetaV {
    match json_doc_of(encode_utf8(t)) {
        Some(v) => v,
        None => MetaV::Text(t),
    }
}

/// Orders directory entries by data offset, then size: the order the
/// rewritten header lists tensors in.
pub open spec fn entry_leq(x: (String, TensorInfo), y: (String, TensorInfo)) -> bool {
    x.1.offset < y.1.offset || (x.1.offset == y.1.offset && x.1.size <= y.1.size)
}

/// Sorts a tensor directory by ascending data offset (then size),
/// keeping exactly the same entries.
fn sort_by_offset(dir: &mut Vec<(String, TensorInfo)>)
    ensures
        final(dir)@.to_multiset() == old(dir)@.to_multiset(),
        entries_view(final(dir)@).to_multiset() == entries_view(old(dir)@).to_multiset(),
        forall|i: int, j: int|
            0 <= i < j < final(dir)@.len() ==> entry_leq(
                #[trigger] final(dir)@[i],
                #[trigger] final(dir)@[j],
            ),
{
    broadcast use vstd::seq_lib::group_to_multiset_ensures;

    let mut out: Vec<(String, TensorInfo)> = Vec::new();
    proof {
        assert(out@.to_multiset().add(old(dir)@.to_multiset()) =~= old(dir)@.to_multiset());
        assert(entries_view(out@).to_multiset().add(entries_view(dir@).to_multiset()) =~=
        entries_view(old(dir)@).to_multiset());
    }
    while dir.len() > 0
        invariant
            out@.to_multiset().add(dir@.to_multiset()) =~= old(dir)@.to_multiset(),
            entries_view(out@).to_multiset().add(entries_view(dir@).to_multiset())
                =~= entries_view(old(dir)@).to_multiset(),
            forall|i: int, j: int|
                0 <= i < j < out@.len() ==> entry_leq(
                    #[trigger] out@[i],
                    #[trigger] out@[j],
                ),
        decreases dir@.len(),
    {
        let ghost dpre = dir@;
        let x = dir.remove(0);
        let ghost xv = (x.0@, info_view(x.1));
        proof {
            assert(dir@ =~= dpre.remove(0));
            vstd::seq_lib::to_multiset_remove(dpre, 0);
            assert(dir@.to_multiset() == dpre.to_multiset().remove(x));
            assert(dpre.contains(x));
            vstd::seq_lib::to_multiset_contains(dpre, x);
            assert(dpre.to_multiset().count(x) > 0);
            assert(entries_view(dir@) =~= entries_view(dpre).remove(0));
            vstd::seq_lib::to_multiset_remove(entries_view(dpre), 0);
            assert(entries_view(dir@).to_multiset() == entries_view(dpre).to_multiset()
                .remove(xv));
            assert(entries_view(dpre).contains(xv)) by {
                assert(entries_view(dpre)[0] == xv);
            }
            vstd::seq_lib::to_multiset_contains(entries_view(dpre), xv);
            assert(entries_view(dpre).to_multiset().count(xv) > 0);
        }
        // Find the insertion position among the already sorted output.
        let m = out.len();
        let mut pos: usize = 0;
        loop
            invariant_except_break
                0 <= pos <= m,
                m == out@.len(),
                forall|i: int| 0 <= i < pos ==> entry_leq(#[trigger] out@[i], x),
            ensures
                0 <= pos <= m,
                m == out@.len(),
                forall|i: int| 0 <= i < pos ==> entry_leq(#[trigger] out@[i], x),
                pos < m ==> !entry_leq(out@[pos as int], x),
            decreases m - pos,
        {
            if pos >= m {
                break;
            }
            let below = out[pos].1.offset < x.1.offset || (out[pos].1.offset == x.1.offset
                && out[pos].1.size <= x.1.size);
            if !below {
                break;
            }
            pos += 1;
        }
        let ghost opre = out@;
        let ghost posg = pos as int;
        out.insert(pos, x);
        proof {
            broadcast use vstd::multiset::group_multiset_axioms;

            assert(out@ =~= opre.insert(posg, x));
            vstd::seq_lib::to_multiset_insert(opre, posg, x);
            assert(out@.to_multiset() =~= opre.to_multiset().insert(x));
            assert(out@.to_multiset().add(dir@.to_multiset()) =~= old(dir)@.to_multiset());
            assert(entries_view(out@) =~= entries_view(opre).insert(posg, xv));
            vstd::seq_lib::to_multiset_insert(entries_view(opre), posg, xv);
            assert(entries_view(out@).to_multiset() =~= entries_view(opre).to_multiset()
                .insert(xv));
            assert(entries_view(out@).to_multiset().add(entries_view(dir@).to_multiset())
                =~= entries_view(old(dir)@).to_multiset());
            assert forall|i: int, j: int| 0 <= i < j < out@.len() implies entry_leq(
                #[trigger] out@[i],
                #[trigger] out@[j],
            ) by {
                if j < posg {
                    assert(out@[i] == opre[i] && out@[j] == opre[j]);
                } else if j == posg {
                    assert(out@[j] == x);
                    assert(out@[i] == opre[i]);
                } else if i == posg {
                    assert(out@[i] == x && out@[j] == opre[j - 1]);
                    assert(!entry_leq(opre[posg], x));
                    assert(entry_leq(x, opre[posg]));
                    assert(entry_leq(opre[posg], opre[j - 1]) || posg == j - 1);
                } else if i < posg {
                    assert(out@[i] == opre[i] && out@[j] == opre[j - 1]);
                } else {
                    assert(out@[i] == opre[i - 1] && out@[j] == opre[j - 1]);
                }
            }
        }
    }
    proof {
        assert(dir@.to_multiset() =~= Seq::<(String, TensorInfo)>::empty().to_multiset());
        assert(out@.to_multiset().add(dir@.to_multiset()) =~= out@.to_multiset());
        assert(entries_view(dir@) =~= Seq::<(Seq<char>, TensorInfoV)>::empty());
        assert(entries_view(out@).to_multiset().add(entries_view(dir@).to_multiset()) =~=
        entries_view(out@).to_multiset());
    }
    let mut out = out;
    core::mem::swap(dir, &mut out);
}

/// Copies a tensor directory, preserving every entry's view.
fn clone_directory(src: &Vec<(String, TensorInfo)>) -> (r: Vec<(String, TensorInfo)>)
    ensures
        entries_view(r@) == entries_view(src@),
        r@.len() == src@.len(),
{
    let n = src.len();
    let mut out: Vec<(String, TensorInfo)> = Vec::new();
    let mut i: usize = 0;
    while i < n
        invariant
            0 <= i <= n,
            n == src@.len(),
            out@.len() == i,
            forall|j: int|
                0 <= j < i ==> (#[trigger] entries_view(out@)[j]) == entries_view(src@)[j],
        decreases n - i,
    {
        let ghost opre = out@;
        out.push((src[i].0.clone(), src[i].1.clone()));
        proof {
            assert forall|j: int| 0 <= j < i + 1 implies (#[trigger] entries_view(out@)[j])
                == entries_view(src@)[j] by {
                if j < i {
                    assert(out@[j] == opre[j]);
                    assert(entries_view(opre)[j] == entries_view(src@)[j]);
                } else {
                    assert(out@[j] == (out@[j].0, out@[j].1));
                }
            }
        }
        i += 1;
    }
    proof {
        assert(entries_view(out@) =~= entries_view(src@));
    }
    out
}

impl<S: Storage> Safetensors<S> {
    /// Opens a safetensors container: reads the 8-byte little-endian
    /// header length, refuses headers over the sanity limit, reads and
    /// parses the header bytes; whatever bytes the backend returned, a
    /// successful open holds exactly their parse, with the data section
    /// starting right after the header.
    pub fn open(storage: S) -> (r: Result<Self, AppError>)
        ensures
            r matches Ok(st) ==> opened_from_some_header(st),
    {
        let mut storage = storage;
        let prefix = match storage.read_range(0, 8) {
            Ok(b) => b,
            Err(e) => {
                return Err(e);
            },
        };
        let n = match header_len_of_prefix(&prefix) {
            Ok(n) => n,
            Err(e) => {
                return Err(e);
            },
        };
        let header = match storage.read_range(8, n as usize) {
            Ok(b) => b,
            Err(e) => {
                return Err(e);
            },
        };
        if header.len() != n as usize {
            // The backend returned fewer header bytes than declared.
            return Err(AppError::StorageFailure("short header read".to_owned()));
        }
        let (tensors, user_meta) = match parse_header(&header) {
            Ok(x) => x,
            Err(e) => {
                return Err(e);
            },
        };
        let st = Safetensors { storage, data_offset: 8 + n, tensors, user_meta };
        proof {
            let hb = header@;
            assert(header_parsed(hb, entries_view(st.tensors@), meta_pairs_view(st.user_meta@)));
            assert(st.data_offset == 8 + hb.len());
            assert(opened_from_some_header(st)) by {
                assert(exists|hb2: Seq<u8>|
                    {
                        &&& #[trigger] header_parsed(
                            hb2,
                            entries_view(st.tensors@),
                            meta_pairs_view(st.user_meta@),
                        )
                        &&& st.data_offset == 8 + hb2.len()
                    });
            }
        }
        Ok(st)
    }

    /// Rebuilds the module tree of the tensor directory.
    pub fn module(&self, split: &PathSplit) -> (r: Result<ModuleInfo, AppError>)
        ensures
            ({
                let PathSplit::Delim(d) = *split;
                r matches Ok(m) && m.view_tree() == build_spec(entries_view(self.tensors@), d)
                    && m.keys_wf(d, true)
            }),
    {
        let dir = clone_directory(&self.tensors);
        let m = ModuleInfo::build_from_tensors(dir, split);
        Ok(m)
    }

    /// The free-form metadata map: every `__metadata__` pair, its
    /// value coerced through a JSON parse of its text where one
    /// succeeds.
    pub fn metadata(&self) -> (r: Result<MetaValue, AppError>)
        ensures
            r matches Ok(m) && m.view_meta() == MetaV::Object(
                self.user_meta@.map_values(
                    |pr: (String, String)| (pr.0@, coerce_text(pr.1@)),
                ),
            ),
    {
        let ghost target = self.user_meta@.map_values(
            |pr: (String, String)| (pr.0@, coerce_text(pr.1@)),
        );
        let n = self.user_meta.len();
        let mut out: Vec<(String, MetaValue)> = Vec::new();
        let mut i: usize = 0;
        while i < n
            invariant
                0 <= i <= n,
                n == self.user_meta@.len(),
                target == self.user_meta@.map_values(
                    |pr: (String, String)| (pr.0@, coerce_text(pr.1@)),
                ),
                target.len() == n,
                out@.len() == i,
                forall|j: int|
                    0 <= j < i ==> ((#[trigger] out@[j]).0@, out@[j].1.view_meta())
                        == target[j],
            decreases n - i,
        {
            let text = &self.user_meta[i].1;
            let coerced = match parse_json(text.as_str().as_bytes()) {
                Some(v) => v,
                None => MetaValue::Text(text.clone()),
            };
            proof {
                assert(target[i as int] == (self.user_meta@[i as int].0@, coerce_text(
                    self.user_meta@[i as int].1@,
                )));
            }
            out.push((self.user_meta[i].0.clone(), coerced));
            i += 1;
        }
        let m = MetaValue::Object(out);
        proof {
            assert(m.view_meta()->Object_0 =~= target);
            assert(m.view_meta() == MetaV::Object(target));
        }
        Ok(m)
    }

    /// Rewrites the whole header: the metadata tree is flattened into
    /// dotted-path strings, the directory is listed by ascending data
    /// offset, the new header replaces the old region behind a fresh
    /// length prefix, and the data-section origin moves accordingly.
    pub fn write_metadata(&mut self, metadata: &MetaValue) -> (r: Result<(), AppError>)
        ensures
            match r {
                Ok(()) => {
                    &&& Some(
                        final(self).user_meta@.map_values(
                            |pr: (String, String)| (pr.0@, pr.1@),
                        ),
                    ) == flatten_spec_v(metadata.view_meta(), Seq::<char>::empty())
                    &&& entries_view(final(self).tensors@).to_multiset() == entries_view(
                        old(self).tensors@,
                    ).to_multiset()
                    &&& forall|i: int, j: int|
                        0 <= i < j < final(self).tensors@.len() ==> entry_leq(
                            #[trigger] final(self).tensors@[i],
                            #[trigger] final(self).tensors@[j],
                        )
                    &&& final(self).data_offset == 8 + encode_utf8(
                        ser_header(
                            final(self).user_meta@.map_values(
                                |pr: (String, String)| (pr.0@, pr.1@),
                            ),
                            entries_view(final(self).tensors@),
                        ),
                    ).len()
                },
                Err(e) => {
                    &&& final(self).tensors == old(self).tensors
                    &&& final(self).user_meta == old(self).user_meta
                    &&& final(self).data_offset == old(self).data_offset
                    &&& (e == AppError::UnsupportedMetaValue <==> flatten_spec_v(
                        metadata.view_meta(),
                        Seq::<char>::empty(),
                    ) is None)
                    &&& (e == AppError::SizeOverflow ==> (exists|j: int|
                        0 <= j < old(self).tensors@.len() && (#[trigger] entries_view(
                            old(self).tensors@,
                        )[j]).1.offset + entries_view(old(self).tensors@)[j].1.size
                            > u64::MAX) || old(self).data_offset > usize::MAX || (exists|
                        sd: Seq<(Seq<char>, TensorInfoV)>,
                    |
                        #[trigger] sd.to_multiset() == entries_view(
                            old(self).tensors@,
                        ).to_multiset() && 8 + encode_utf8(
                            ser_header(
                                flatten_spec_v(metadata.view_meta(), Seq::<char>::empty())->0,
                                sd,
                            ),
                        ).len() > u64::MAX))
                },
            },
    {
        let empty_path = String::new();
        let flat = match flatten_value(metadata, &empty_path) {
            Ok(f) => f,
            Err(e) => {
                return Err(AppError::UnsupportedMetaValue);
            },
        };
        let mut dir = clone_directory(&self.tensors);
        let ghost oldview = entries_view(old(self).tensors@);
        proof {
            assert(entries_view(dir@) == oldview);
        }
        sort_by_offset(&mut dir);
        let header = match build_header(&flat, &dir) {
            Ok(h) => h,
            Err(e) => {
                proof {
                    // The overflowing entry of the sorted copy is one
                    // of the original entries.
                    broadcast use vstd::seq_lib::group_to_multiset_ensures;

                    let dv = entries_view(dir@);
                    let j = choose|j: int|
                        0 <= j < dv.len() && (#[trigger] dv[j]).1.offset + dv[j].1.size
                            > u64::MAX;
                    let x = dv[j];
                    assert(dv.contains(x));
                    vstd::seq_lib::to_multiset_contains(dv, x);
                    vstd::seq_lib::to_multiset_contains(oldview, x);
                    assert(oldview.contains(x));
                    let i = choose|i: int| 0 <= i < oldview.len() && oldview[i] == x;
                    assert(oldview[i].1.offset + oldview[i].1.size > u64::MAX);
                }
                return Err(e);
            },
        };
        let hlen = header.len();
        if hlen as u64 > u64::MAX - 8 {
            proof {
                let sd = entries_view(dir@);
                assert(sd.to_multiset() == oldview.to_multiset());
                assert(8 + encode_utf8(
                    ser_header(
                        flatten_spec_v(metadata.view_meta(), Seq::<char>::empty())->0,
                        sd,
                    ),
                ).len() > u64::MAX);
            }
            return Err(AppError::SizeOverflow);
        }
        let mut payload = le_bytes_of_u64(hlen as u64);
        let mut header = header;
        let ghost header_g = header@;
        payload.append(&mut header);
        if self.data_offset > usize::MAX as u64 {
            return Err(AppError::SizeOverflow);
        }
        match self.storage.splice(0, self.data_offset as usize, &payload) {
            Ok(()) => {},
            Err(e) => {
                return Err(AppError::StorageFailure(e.message()));
            },
        }
        self.data_offset = 8 + hlen as u64;
        self.tensors = dir;
        self.user_meta = flat;
        Ok(())
    }

    /// Reads the raw bytes of one tensor: `nbytes` bytes starting at
    /// the tensor's offset past the data-section origin.
    pub fn tensor_bytes(&mut self, offset: u64, nbytes: usize) -> (r: Result<Vec<u8>, AppError>)
        ensures
            old(self).data_offset + offset > u64::MAX ==> r == Err::<
                Vec<u8>,
                AppError,
            >(AppError::SizeOverflow),
            final(self).tensors == old(self).tensors,
            final(self).user_meta == old(self).user_meta,
            final(self).data_offset == old(self).data_offset,
    {
        let start = match self.data_offset.checked_add(offset) {
            Some(s) => s,
            None => {
                return Err(AppError::SizeOverflow);
            },
        };
        self.storage.read_range(start, nbytes)
    }
}


/// The metadata round trip, modulo the string coercion rule: after
/// `write_metadata(m)` stores the flattening of `m` (its contract),
/// `metadata()` returns an object holding exactly those dotted-path
/// pairs, each value coerced through a JSON parse of its text (its
/// contract).  This lemma names the composed shape of the value that
/// comes back.
pub proof fn lemma_metadata_round_trip(
    m: MetaV,
    pairs: Seq<(Seq<char>, Seq<char>)>,
    read_back: MetaV,
)
    requires
        flatten_spec_v(m, Seq::<char>::empty()) == Some(pairs),
        read_back == MetaV::Object(
            pairs.map_values(|pr: (Seq<char>, Seq<char>)| (pr.0, coerce_text(pr.1))),
        ),
    ensures
        read_back is Object,
        read_back->Object_0.len() == pairs.len(),
        forall|i: int|
            0 <= i < pairs.len() ==> #[trigger] read_back->Object_0[i] == (
                pairs[i].0,
                coerce_text(pairs[i].1),
            ),
{
}

} // verus!
