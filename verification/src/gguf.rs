//! The gguf container: a verified parser for the version 3 binary
//! header — magic, typed key/value metadata, tensor records, and the
//! aligned data-section origin — together with the numeric type
//! registry that derives tensor byte sizes.

use vstd::prelude::*;

use crate::AppError;
use crate::codec::{le16, le32, le64, read_u16, read_u32, read_u64};
use crate::meta::{MetaV, MetaValue};
use crate::model::{GgmlTypeId, PathSplit, TensorInfo, TensorTy};
use crate::storage::Storage;
use crate::tree::{ModuleInfo, build_spec, entries_view};
use crate::util::{sat_product, product_u64};

verus! {

broadcast use vstd::std_specs::vec::group_vec_axioms, vstd::seq::group_seq_axioms;

/// One entry of the numeric type registry: a type id, its block size
/// in elements, and the byte size of one block.
#[derive(Debug, Clone, Copy, PartialEq, Eq, Structural)]
pub struct NumericTypeInfo {
    pub id: u32,
    pub block_size: u64,
    pub type_size: u64,
}

/// The numeric type registry: how many elements a block holds and how
/// many bytes it takes, per ggml type id.  The registry is plain data,
/// so callers can extend it with further quantized formats.
#[derive(Debug)]
pub struct NumericRegistry {
    pub entries: Vec<NumericTypeInfo>,
}

/// The first registry entry for `id`.
pub open spec fn lookup_spec(entries: Seq<NumericTypeInfo>, id: u32) -> Option<NumericTypeInfo>
    decreases entries.len(),
{
    if entries.len() == 0 {
        None
    } else if entries[0].id == id {
        Some(entries[0])
    } else {
        lookup_spec(entries.drop_first(), id)
    }
}

impl NumericRegistry {
    /// Looks a type id up.
    pub fn lookup(&self, id: u32) -> (r: Option<NumericTypeInfo>)
        ensures
            r == lookup_spec(self.entries@, id),
    {
        let n = self.entries.len();
        let mut i: usize = 0;
        proof {
            assert(self.entries@.skip(0) =~= self.entries@);
        }
        while i < n
            invariant
                0 <= i <= n,
                n == self.entries@.len(),
                lookup_spec(self.entries@, id) == lookup_spec(
                    self.entries@.skip(i as int),
                    id,
                ),
                forall|j: int| 0 <= j < i ==> (#[trigger] self.entries@[j]).id != id,
            decreases n - i,
        {
            proof {
                assert(self.entries@.skip(i as int).drop_first() =~= self.entries@.skip(i + 1));
            }
            if self.entries[i].id == id {
                return Some(self.entries[i]);
            }
            i += 1;
        }
        proof {
            assert(self.entries@.skip(n as int) =~= Seq::<NumericTypeInfo>::empty());
        }
        None
    }
}

/// The built-in registry rows: the fixed-width types and the classic
/// block-quantized formats whose layouts are stable.
pub open spec fn default_registry_spec() -> Seq<NumericTypeInfo> {
    seq![
        NumericTypeInfo { id: 0, block_size: 1, type_size: 4 },
        NumericTypeInfo { id: 1, block_size: 1, type_size: 2 },
        NumericTypeInfo { id: 2, block_size: 32, type_size: 18 },
        NumericTypeInfo { id: 3, block_size: 32, type_size: 20 },
        NumericTypeInfo { id: 6, block_size: 32, type_size: 22 },
        NumericTypeInfo { id: 7, block_size: 32, type_size: 24 },
        NumericTypeInfo { id: 8, block_size: 32, type_size: 34 },
        NumericTypeInfo { id: 9, block_size: 32, type_size: 36 },
        NumericTypeInfo { id: 24, block_size: 1, type_size: 1 },
        NumericTypeInfo { id: 25, block_size: 1, type_size: 2 },
        NumericTypeInfo { id: 26, block_size: 1, type_size: 4 },
        NumericTypeInfo { id: 27, block_size: 1, type_size: 8 },
        NumericTypeInfo { id: 28, block_size: 1, type_size: 8 },
        NumericTypeInfo { id: 30, block_size: 1, type_size: 2 },
    ]
}

/// Builds the built-in registry.
pub fn default_registry() -> (r: NumericRegistry)
    ensures
        r.entries@ == default_registry_spec(),
{
    let mut entries: Vec<NumericTypeInfo> = Vec::new();
    entries.push(NumericTypeInfo { id: 0, block_size: 1, type_size: 4 });
    entries.push(NumericTypeInfo { id: 1, block_size: 1, type_size: 2 });
    entries.push(NumericTypeInfo { id: 2, block_size: 32, type_size: 18 });
    entries.push(NumericTypeInfo { id: 3, block_size: 32, type_size: 20 });
    entries.push(NumericTypeInfo { id: 6, block_size: 32, type_size: 22 });
    entries.push(NumericTypeInfo { id: 7, block_size: 32, type_size: 24 });
    entries.push(NumericTypeInfo { id: 8, block_size: 32, type_size: 34 });
    entries.push(NumericTypeInfo { id: 9, block_size: 32, type_size: 36 });
    entries.push(NumericTypeInfo { id: 24, block_size: 1, type_size: 1 });
    entries.push(NumericTypeInfo { id: 25, block_size: 1, type_size: 2 });
    entries.push(NumericTypeInfo { id: 26, block_size: 1, type_size: 4 });
    entries.push(NumericTypeInfo { id: 27, block_size: 1, type_size: 8 });
    entries.push(NumericTypeInfo { id: 28, block_size: 1, type_size: 8 });
    entries.push(NumericTypeInfo { id: 30, block_size: 1, type_size: 2 });
    proof {
        assert(entries@ =~= default_registry_spec());
    }
    NumericRegistry { entries }
}

/// The ggml type ids of the plain fixed-width types, mapped into the
/// shared element-type enumeration; other ids stay opaque.
pub open spec fn ggml_ty_spec(id: u32) -> TensorTy {
    if id == 24 {
        TensorTy::I8
    } else if id == 25 {
        TensorTy::I16
    } else if id == 26 {
        TensorTy::I32
    } else if id == 27 {
        TensorTy::I64
    } else if id == 1 {
        TensorTy::F16
    } else if id == 30 {
        TensorTy::BF16
    } else if id == 0 {
        TensorTy::F32
    } else if id == 28 {
        TensorTy::F64
    } else {
        TensorTy::Ggml(id)
    }
}

/// Maps a ggml type id into the shared element-type enumeration.
pub fn ggml_ty(id: u32) -> (r: TensorTy)
    ensures
        r == ggml_ty_spec(id),
{
    if id == 24 {
        TensorTy::I8
    } else if id == 25 {
        TensorTy::I16
    } else if id == 26 {
        TensorTy::I32
    } else if id == 27 {
        TensorTy::I64
    } else if id == 1 {
        TensorTy::F16
    } else if id == 30 {
        TensorTy::BF16
    } else if id == 0 {
        TensorTy::F32
    } else if id == 28 {
        TensorTy::F64
    } else {
        TensorTy::Ggml(id)
    }
}

/// The derived byte size of a tensor, walking the dimensions innermost
/// first exactly as the stored shape is folded: `None` on an empty
/// shape or when a step leaves `u64`.
pub open spec fn nbytes_rec(shape: Seq<u64>, i: int, acc: int) -> Option<int>
    decreases i + 1,
{
    if acc > u64::MAX {
        None
    } else if i < 0 {
        Some(acc)
    } else {
        nbytes_rec(shape, i - 1, acc * shape[i])
    }
}

/// The derived byte size of a tensor under a registry row: one block
/// row of the innermost dimension, times every remaining dimension.
pub open spec fn nbytes_spec(shape: Seq<u64>, tr: NumericTypeInfo) -> Option<int> {
    if shape.len() == 0 || tr.block_size == 0 {
        None
    } else if tr.type_size * shape.last() > u64::MAX {
        None
    } else {
        nbytes_rec(shape, shape.len() - 2, tr.type_size * shape.last() as int / tr.block_size as int)
    }
}

/// Derives the byte size of a tensor from its shape and registry row.
pub fn tensor_nbytes(shape: &Vec<u64>, tr: NumericTypeInfo) -> (r: Result<usize, AppError>)
    requires
        tr.block_size > 0,
    ensures
        match r {
            Ok(n) => nbytes_spec(shape@, tr) == Some(n as int),
            Err(e) => if shape@.len() == 0 {
                e == AppError::EmptyShape
            } else {
                e == AppError::SizeOverflow && (nbytes_spec(shape@, tr) is None || nbytes_spec(
                    shape@,
                    tr,
                )->0 > usize::MAX)
            },
        },
{
    let n = shape.len();
    if n == 0 {
        return Err(AppError::EmptyShape);
    }
    let inner = shape[n - 1];
    let first = match tr.type_size.checked_mul(inner) {
        Some(v) => v,
        None => {
            return Err(AppError::SizeOverflow);
        },
    };
    let mut acc: u64 = first / tr.block_size;
    let mut i: usize = n - 1;
    while i > 0
        invariant
            0 <= i <= n - 1,
            n == shape@.len(),
            nbytes_spec(shape@, tr) == nbytes_rec(shape@, i - 1, acc as int),
        decreases i,
    {
        let d = shape[i - 1];
        acc = match acc.checked_mul(d) {
            Some(v) => v,
            None => {
                proof {
                    assert(nbytes_rec(shape@, i - 2, acc as int * d as int) is None);
                }
                return Err(AppError::SizeOverflow);
            },
        };
        i -= 1;
    }
    proof {
        assert(nbytes_rec(shape@, -1, acc as int) == Some(acc as int));
    }
    if acc > usize::MAX as u64 {
        return Err(AppError::SizeOverflow);
    }
    Ok(acc as usize)
}

/// What decoding a byte string as UTF-8 yields: the characters depend
/// on the bytes alone.
pub uninterp spec fn utf8_chars(b: Seq<u8>) -> Option<Seq<char>>;

/// Relies on `String::from_utf8`: decodes UTF-8 bytes into the string
/// they spell, or reports that the bytes are not UTF-8; the outcome
/// depends on the bytes alone.
#[verifier::external_body]
pub fn bytes_to_string(b: Vec<u8>) -> (r: Result<String, AppError>)
    ensures
        match r {
            Ok(s) => utf8_chars(b@) == Some(s@),
            Err(e) => utf8_chars(b@) is None && e == AppError::GgufBadString,
        },
{
    match String::from_utf8(b) {
        Ok(s) => Ok(s),
        Err(_) => Err(AppError::GgufBadString),
    }
}

/// Copies the byte range `[start, start + n)` out of a buffer.
pub fn take_range(bytes: &[u8], start: usize, n: usize) -> (r: Vec<u8>)
    requires
        start + n <= bytes@.len(),
    ensures
        r@ == bytes@.subrange(start as int, start as int + n as int),
{
    let blen = bytes.len();
    let mut out: Vec<u8> = Vec::new();
    let mut i: usize = 0;
    while i < n
        invariant
            0 <= i <= n,
            start + n <= bytes@.len(),
            bytes@.len() == blen,
            out@ =~= bytes@.subrange(start as int, start as int + i as int),
        decreases n - i,
    {
        let ghost prev = out@;
        out.push(bytes[start + i]);
        proof {
            assert(out@ =~= bytes@.subrange(start as int, start as int + i + 1));
        }
        i += 1;
    }
    out
}

/// One parsed metadata pair: the key text, the declared type tag, and
/// the converted value.
pub ghost struct GgufKvV {
    pub key: Seq<char>,
    pub tag: u32,
    pub value: MetaV,
}

/// One parsed tensor record: name, ggml type id, shape outermost
/// first, derived byte size, and data offset.
pub ghost struct TensorRecV {
    pub name: Seq<char>,
    pub ty: u32,
    pub shape: Seq<u64>,
    pub nbytes: int,
    pub offset: u64,
}

/// A gguf string at `at`: a 64-bit length followed by that many bytes.
pub open spec fn p_string(s: Seq<u8>, at: int) -> Option<(Seq<u8>, int)> {
    if at < 0 || at + 8 > s.len() {
        None
    } else {
        let n = le64(s, at);
        if at + 8 + n > s.len() {
            None
        } else {
            Some((s.subrange(at + 8, at + 8 + n), at + 8 + n))
        }
    }
}

/// A typed metadata value at `at`, under the type tag `ty`.
pub open spec fn p_value(s: Seq<u8>, at: int, ty: u32) -> Option<(MetaV, int)>
    decreases s.len() - at, 0int, 0int,
    when at >= 0
{
    if at > s.len() {
        None
    } else if ty == 0 {
        if at + 1 <= s.len() {
            Some((MetaV::UInt(s[at] as u64), at + 1))
        } else {
            None
        }
    } else if ty == 1 {
        if at + 1 <= s.len() {
            Some(
                (
                    MetaV::Int(
                        if s[at] < 128 {
                            s[at] as i64
                        } else {
                            (s[at] - 256) as i64
                        },
                    ),
                    at + 1,
                ),
            )
        } else {
            None
        }
    } else if ty == 2 {
        if at + 2 <= s.len() {
            Some((MetaV::UInt(le16(s, at) as u64), at + 2))
        } else {
            None
        }
    } else if ty == 3 {
        if at + 2 <= s.len() {
            Some(
                (
                    MetaV::Int(
                        if le16(s, at) < 0x8000 {
                            le16(s, at) as i64
                        } else {
                            (le16(s, at) - 0x10000) as i64
                        },
                    ),
                    at + 2,
                ),
            )
        } else {
            None
        }
    } else if ty == 4 {
        if at + 4 <= s.len() {
            Some((MetaV::UInt(le32(s, at) as u64), at + 4))
        } else {
            None
        }
    } else if ty == 5 {
        if at + 4 <= s.len() {
            Some(
                (
                    MetaV::Int(
                        if le32(s, at) < 0x8000_0000 {
                            le32(s, at) as i64
                        } else {
                            (le32(s, at) - 0x1_0000_0000) as i64
                        },
                    ),
                    at + 4,
                ),
            )
        } else {
            None
        }
    } else if ty == 6 {
        if at + 4 <= s.len() {
            Some((MetaV::F32Bits(le32(s, at) as u32), at + 4))
        } else {
            None
        }
    } else if ty == 7 {
        if at + 1 <= s.len() {
            Some((MetaV::Bool(s[at] != 0), at + 1))
        } else {
            None
        }
    } else if ty == 8 {
        match p_string(s, at) {
            Some((raw, at2)) => match utf8_chars(raw) {
                Some(t) => Some((MetaV::Text(t), at2)),
                None => None,
            },
            None => None,
        }
    } else if ty == 9 {
        if at + 12 <= s.len() {
            let el_ty = le32(s, at) as u32;
            let n = le64(s, at + 4);
            match p_elems(s, at + 12, el_ty, n) {
                Some((vs, at2)) => Some((MetaV::Array(vs), at2)),
                None => None,
            }
        } else {
            None
        }
    } else if ty == 10 {
        if at + 8 <= s.len() {
            Some((MetaV::UInt(le64(s, at) as u64), at + 8))
        } else {
            None
        }
    } else if ty == 11 {
        if at + 8 <= s.len() {
            Some(
                (
                    MetaV::Int(
                        if le64(s, at) < 0x8000_0000_0000_0000 {
                            le64(s, at) as i64
                        } else {
                            (le64(s, at) - 0x1_0000_0000_0000_0000) as i64
                        },
                    ),
                    at + 8,
                ),
            )
        } else {
            None
        }
    } else if ty == 12 {
        if at + 8 <= s.len() {
            Some((MetaV::F64Bits(le64(s, at) as u64), at + 8))
        } else {
            None
        }
    } else {
        None
    }
}

/// `n` further array elements of type `ty`, starting at `at`.
pub open spec fn p_elems(s: Seq<u8>, at: int, ty: u32, n: int) -> Option<(Seq<MetaV>, int)>
    decreases s.len() - at, 1int, n,
    when at >= 0
{
    if n <= 0 {
        Some((Seq::empty(), at))
    } else {
        match p_value(s, at, ty) {
            Some((v, at2)) => {
                if at2 <= at || at2 > s.len() {
                    None
                } else {
                    match p_elems(s, at2, ty, n - 1) {
                        Some((vs, at3)) => Some((seq![v] + vs, at3)),
                        None => None,
                    }
                }
            },
            None => None,
        }
    }
}

/// `n` further metadata pairs, starting at `at`.
pub open spec fn p_kvs(s: Seq<u8>, at: int, n: int) -> Option<(Seq<GgufKvV>, int)>
    decreases n,
    when at >= 0
{
    if n <= 0 {
        Some((Seq::empty(), at))
    } else {
        match p_string(s, at) {
            Some((rawkey, at1)) => match utf8_chars(rawkey) {
                Some(key) => {
                    if at1 + 4 > s.len() {
                        None
                    } else {
                        let tag = le32(s, at1) as u32;
                        match p_value(s, at1 + 4, tag) {
                            Some((v, at2)) => {
                                if at2 < at1 + 4 {
                                    None
                                } else {
                                    match p_kvs(s, at2, n - 1) {
                                        Some((kvs, at3)) => Some(
                                            (
                                                seq![
                                                    GgufKvV { key, tag, value: v },
                                                ] + kvs,
                                                at3,
                                            ),
                                        ),
                                        None => None,
                                    }
                                }
                            },
                            None => None,
                        }
                    }
                },
                None => None,
            },
            None => None,
        }
    }
}

/// The dimensions of a tensor record: `n` 64-bit values, kept in file
/// order.
pub open spec fn p_dims(s: Seq<u8>, at: int, n: int) -> Option<(Seq<u64>, int)>
    decreases n,
    when at >= 0
{
    if n <= 0 {
        Some((Seq::empty(), at))
    } else if at + 8 > s.len() {
        None
    } else {
        match p_dims(s, at + 8, n - 1) {
            Some((ds, at2)) => Some((seq![le64(s, at) as u64] + ds, at2)),
            None => None,
        }
    }
}

/// `n` further tensor records, starting at `at`; byte sizes are derived
/// from the registry rows.
pub open spec fn p_tensors(s: Seq<u8>, at: int, n: int, reg: Seq<NumericTypeInfo>) -> Option<
    (Seq<TensorRecV>, int),
>
    decreases n,
    when at >= 0
{
    if n <= 0 {
        Some((Seq::empty(), at))
    } else {
        match p_string(s, at) {
            Some((rawname, at1)) => match utf8_chars(rawname) {
                Some(name) => {
                    if at1 + 4 > s.len() {
                        None
                    } else {
                        let nd = le32(s, at1) as u32;
                        match p_dims(s, at1 + 4, nd as int) {
                            Some((ds, at2)) => {
                                if at2 + 12 > s.len() {
                                    None
                                } else {
                                    let ty = le32(s, at2) as u32;
                                    let offset = le64(s, at2 + 4) as u64;
                                    let shape = ds.reverse();
                                    match lookup_spec(reg, ty) {
                                        Some(tr) => {
                                            if tr.block_size == 0 || tr.type_size == 0 {
                                                None
                                            } else {
                                                match nbytes_spec(shape, tr) {
                                                    Some(nb) => {
                                                        if nb > usize::MAX {
                                                            None
                                                        } else {
                                                            match p_tensors(
                                                                s,
                                                                at2 + 12,
                                                                n - 1,
                                                                reg,
                                                            ) {
                                                                Some((ts, at3)) => Some(
                                                                    (
                                                                        seq![
                                                                            TensorRecV {
                                                                                name,
                                                                                ty,
                                                                                shape,
                                                                                nbytes: nb,
                                                                                offset,
                                                                            },
                                                                        ] + ts,
                                                                        at3,
                                                                    ),
                                                                ),
                                                                None => None,
                                                            }
                                                        }
                                                    },
                                                    None => None,
                                                }
                                            }
                                        },
                                        None => None,
                                    }
                                }
                            },
                            None => None,
                        }
                    }
                },
                None => None,
            },
            None => None,
        }
    }
}

/// The alignment the metadata selects: the value of the last
/// `general.alignment` pair if it is a 32-bit unsigned, else 32.
pub open spec fn align_of_kvs(kvs: Seq<GgufKvV>) -> int
    decreases kvs.len(),
{
    if kvs.len() == 0 {
        32
    } else if kvs.last().key == "general.alignment"@ {
        if kvs.last().tag == 4 && kvs.last().value is UInt {
            kvs.last().value->UInt_0 as int
        } else {
            32
        }
    } else {
        align_of_kvs(kvs.drop_last())
    }
}

/// A parsed gguf header.
pub ghost struct GgufV {
    pub kvs: Seq<GgufKvV>,
    pub tensors: Seq<TensorRecV>,
    pub alignment: int,
    pub data_start: int,
}

/// The parse of a version 3 gguf header out of the file's bytes: magic,
/// version, counts, metadata pairs, tensor records, and the data
/// section origin, padded to the selected alignment.
pub open spec fn p_gguf(s: Seq<u8>, reg: Seq<NumericTypeInfo>) -> Option<GgufV> {
    if s.len() < 24 {
        None
    } else if !(s[0] == 71 && s[1] == 71 && s[2] == 85 && s[3] == 70) {
        None
    } else if le32(s, 4) != 3 {
        None
    } else {
        let tc = le64(s, 8);
        let kc = le64(s, 16);
        match p_kvs(s, 24, kc) {
            Some((kvs, at1)) => match p_tensors(s, at1, tc, reg) {
                Some((ts, at2)) => {
                    let a = align_of_kvs(kvs);
                    if a <= 0 || at2 + ((a - at2 % a) % a) > u64::MAX {
                        None
                    } else {
                        Some(
                            GgufV {
                                kvs,
                                tensors: ts,
                                alignment: a,
                                data_start: at2 + ((a - at2 % a) % a),
                            },
                        )
                    }
                },
                None => None,
            },
            None => None,
        }
    }
}


/// Reads a gguf string: a 64-bit length then that many raw bytes.
fn parse_string(bytes: &[u8], at: usize) -> (r: Result<(Vec<u8>, usize), AppError>)
    ensures
        match r {
            Ok((raw, at2)) => p_string(bytes@, at as int) == Some((raw@, at2 as int)) && at
                < at2 <= bytes@.len(),
            Err(e) => p_string(bytes@, at as int) is None && e == AppError::GgufTruncated,
        },
{
    let blen = bytes.len();
    if at > blen || blen - at < 8 {
        return Err(AppError::GgufTruncated);
    }
    let n = read_u64(bytes, at, true);
    if n > (blen - at - 8) as u64 {
        return Err(AppError::GgufTruncated);
    }
    let n = n as usize;
    let raw = take_range(bytes, at + 8, n);
    Ok((raw, at + 8 + n))
}

/// Reads one typed metadata value.
#[verifier::rlimit(100)]
fn parse_value(bytes: &[u8], at: usize, ty: u32) -> (r: Result<(MetaValue, usize), AppError>)
    ensures
        match r {
            Ok((v, at2)) => p_value(bytes@, at as int, ty) == Some((v.view_meta(), at2 as int))
                && at < at2 <= bytes@.len(),
            Err(e) => p_value(bytes@, at as int, ty) is None && (e == AppError::GgufTruncated
                || e == AppError::GgufBadString || e matches AppError::UnknownMetaType(_)),
        },
    decreases bytes@.len() - at, 0int, 0int,
{
    let blen = bytes.len();
    if at > blen {
        return Err(AppError::GgufTruncated);
    }
    if ty == 0 {
        if blen - at < 1 {
            return Err(AppError::GgufTruncated);
        }
        return Ok((MetaValue::UInt(bytes[at] as u64), at + 1));
    } else if ty == 1 {
        if blen - at < 1 {
            return Err(AppError::GgufTruncated);
        }
        let b = bytes[at];
        let v: i64 = if b < 128 {
            b as i64
        } else {
            (b as i64) - 256
        };
        proof {
            assert(p_value(bytes@, at as int, ty) == Some(
                (MetaValue::Int(v).view_meta(), at + 1),
            ));
        }
        return Ok((MetaValue::Int(v), at + 1));
    } else if ty == 2 {
        if blen - at < 2 {
            return Err(AppError::GgufTruncated);
        }
        return Ok((MetaValue::UInt(read_u16(bytes, at, true) as u64), at + 2));
    } else if ty == 3 {
        if blen - at < 2 {
            return Err(AppError::GgufTruncated);
        }
        let w = read_u16(bytes, at, true);
        let v: i64 = if w < 0x8000 {
            w as i64
        } else {
            (w as i64) - 0x10000
        };
        proof {
            assert(p_value(bytes@, at as int, ty) == Some(
                (MetaValue::Int(v).view_meta(), at + 2),
            ));
        }
        return Ok((MetaValue::Int(v), at + 2));
    } else if ty == 4 {
        if blen - at < 4 {
            return Err(AppError::GgufTruncated);
        }
        return Ok((MetaValue::UInt(read_u32(bytes, at, true) as u64), at + 4));
    } else if ty == 5 {
        if blen - at < 4 {
            return Err(AppError::GgufTruncated);
        }
        let w = read_u32(bytes, at, true);
        let v: i64 = if w < 0x8000_0000 {
            w as i64
        } else {
            (w as i64) - 0x1_0000_0000
        };
        proof {
            assert(p_value(bytes@, at as int, ty) == Some(
                (MetaValue::Int(v).view_meta(), at + 4),
            ));
        }
        return Ok((MetaValue::Int(v), at + 4));
    } else if ty == 6 {
        if blen - at < 4 {
            return Err(AppError::GgufTruncated);
        }
        return Ok((MetaValue::F32Bits(read_u32(bytes, at, true)), at + 4));
    } else if ty == 7 {
        if blen - at < 1 {
            return Err(AppError::GgufTruncated);
        }
        return Ok((MetaValue::Bool(bytes[at] != 0), at + 1));
    } else if ty == 8 {
        let (raw, at2) = match parse_string(bytes, at) {
            Ok(x) => x,
            Err(e) => {
                return Err(e);
            },
        };
        let text = match bytes_to_string(raw) {
            Ok(t) => t,
            Err(e) => {
                return Err(e);
            },
        };
        return Ok((MetaValue::Text(text), at2));
    } else if ty == 9 {
        if blen - at < 12 {
            return Err(AppError::GgufTruncated);
        }
        let el_ty = read_u32(bytes, at, true);
        let n = read_u64(bytes, at + 4, true);
        let (vs, at2) = match parse_elems(bytes, at + 12, el_ty, n) {
            Ok(x) => x,
            Err(e) => {
                return Err(e);
            },
        };
        let ghost vsg = vs@;
        let mv = MetaValue::Array(vs);
        proof {
            assert(mv.view_meta()->Array_0 =~= vsg.map_values(|m: MetaValue| m.view_meta()));
            assert(mv.view_meta() == MetaV::Array(
                vsg.map_values(|m: MetaValue| m.view_meta()),
            ));
        }
        return Ok((mv, at2));
    } else if ty == 10 {
        if blen - at < 8 {
            return Err(AppError::GgufTruncated);
        }
        return Ok((MetaValue::UInt(read_u64(bytes, at, true)), at + 8));
    } else if ty == 11 {
        if blen - at < 8 {
            return Err(AppError::GgufTruncated);
        }
        let w = read_u64(bytes, at, true);
        let v: i64 = if w < 0x8000_0000_0000_0000 {
            w as i64
        } else if w == 0x8000_0000_0000_0000 {
            i64::MIN
        } else {
            -(((u64::MAX - w) + 1) as i64)
        };
        proof {
            assert(v as int == if le64(bytes@, at as int) < 0x8000_0000_0000_0000 {
                le64(bytes@, at as int)
            } else {
                le64(bytes@, at as int) - 0x1_0000_0000_0000_0000
            });
        }
        return Ok((MetaValue::Int(v), at + 8));
    } else if ty == 12 {
        if blen - at < 8 {
            return Err(AppError::GgufTruncated);
        }
        return Ok((MetaValue::F64Bits(read_u64(bytes, at, true)), at + 8));
    } else {
        return Err(AppError::UnknownMetaType(ty));
    }
}

/// Reads `n` array elements of type `ty`.
fn parse_elems(bytes: &[u8], at: usize, ty: u32, n: u64) -> (r: Result<
    (Vec<MetaValue>, usize),
    AppError,
>)
    requires
        at <= bytes@.len(),
    ensures
        match r {
            Ok((vs, at2)) => p_elems(bytes@, at as int, ty, n as int) == Some(
                (
                    vs@.map_values(|m: MetaValue| m.view_meta()),
                    at2 as int,
                ),
            ) && at <= at2 <= bytes@.len(),
            Err(e) => p_elems(bytes@, at as int, ty, n as int) is None && (e
                == AppError::GgufTruncated || e == AppError::GgufBadString || e matches
                AppError::UnknownMetaType(_)),
        },
    decreases bytes@.len() - at, 1int, n,
{
    let blen = bytes.len();
    if at > blen {
        proof {
            assert(false);
        }
        return Err(AppError::GgufTruncated);
    }
    let mut out: Vec<MetaValue> = Vec::new();
    let mut cur: usize = at;
    let mut i: u64 = 0;
    proof {
        assert(out@.map_values(|m: MetaValue| m.view_meta()) =~= Seq::<MetaV>::empty());
    }
    while i < n
        invariant
            0 <= i <= n,
            at <= cur <= bytes@.len(),
            bytes@.len() == blen,
            ({
                let full = p_elems(bytes@, at as int, ty, n as int);
                let rest = p_elems(bytes@, cur as int, ty, n - i);
                let got = out@.map_values(|m: MetaValue| m.view_meta());
                match rest {
                    Some((vs, end)) => full == Some((got + vs, end)),
                    None => full is None,
                }
            }),
        decreases n - i,
    {
        let ghost got0 = out@.map_values(|m: MetaValue| m.view_meta());
        let (v, at2) = match parse_value(bytes, cur, ty) {
            Ok(x) => x,
            Err(e) => {
                proof {
                    assert(p_elems(bytes@, cur as int, ty, n - i) is None);
                }
                return Err(e);
            },
        };
        let ghost vv = v.view_meta();
        out.push(v);
        proof {
            assert(out@.map_values(|m: MetaValue| m.view_meta()) =~= got0.push(vv));
            assert(p_elems(bytes@, cur as int, ty, n - i) == (
            match p_elems(bytes@, at2 as int, ty, n - i - 1) {
                Some((vs, end)) => Some((seq![vv] + vs, end)),
                None => None::<(Seq<MetaV>, int)>,
            }));
            if p_elems(bytes@, at2 as int, ty, n - i - 1) is Some {
                let pr = p_elems(bytes@, at2 as int, ty, n - i - 1)->0;
                assert(got0.push(vv) + pr.0 =~= got0 + (seq![vv] + pr.0));
            }
        }
        cur = at2;
        i += 1;
    }
    proof {
        assert(p_elems(bytes@, cur as int, ty, 0) == Some((Seq::<MetaV>::empty(), cur as int)));
        assert(out@.map_values(|m: MetaValue| m.view_meta()) + Seq::<MetaV>::empty() =~= out@
            .map_values(|m: MetaValue| m.view_meta()));
    }
    Ok((out, cur))
}


/// One tensor record of a parsed gguf header.
#[derive(Debug)]
pub struct GgmlTensorInfo {
    /// The tensor's flat name.
    pub name: String,
    /// The ggml type id.
    pub ty: GgmlTypeId,
    /// The display label of the type.
    pub ty_name: String,
    /// The shape, outermost dimension first.
    pub shape: Vec<u64>,
    /// The derived byte size of the encoded tensor.
    pub nbytes: usize,
    /// The byte offset relative to the data section.
    pub offset: u64,
}

/// The mathematical shape of a tensor record.
pub open spec fn rec_view(t: GgmlTensorInfo) -> TensorRecV {
    TensorRecV {
        name: t.name@,
        ty: t.ty,
        shape: t.shape@,
        nbytes: t.nbytes as int,
        offset: t.offset,
    }
}

impl GgmlTensorInfo {
    /// The number of elements this record covers: the saturating
    /// product of its dimensions, clipped into `usize`.
    pub fn nelements(&self) -> (r: usize)
        ensures
            r == sat_product(self.shape@) as usize,
    {
        product_u64(&self.shape) as usize
    }

    /// Re-derives the byte size and type label from a registry.
    pub fn update_from_ggml(&mut self, registry: &NumericRegistry) -> (r: Result<(), AppError>)
        ensures
            match r {
                Ok(()) => {
                    &&& lookup_spec(registry.entries@, old(self).ty) matches Some(tr)
                    &&& nbytes_spec(old(self).shape@, lookup_spec(
                        registry.entries@,
                        old(self).ty,
                    )->0) == Some(final(self).nbytes as int)
                    &&& final(self).name == old(self).name
                    &&& final(self).ty == old(self).ty
                    &&& final(self).shape == old(self).shape
                    &&& final(self).offset == old(self).offset
                },
                Err(e) => {
                    &&& *final(self) == *old(self)
                    &&& match lookup_spec(registry.entries@, old(self).ty) {
                        None => e == AppError::UnknownTensorType(old(self).ty),
                        Some(tr) => if tr.block_size == 0 || tr.type_size == 0 {
                            e == AppError::UnknownTensorType(old(self).ty)
                        } else if old(self).shape@.len() == 0 {
                            e == AppError::EmptyShape
                        } else {
                            e == AppError::SizeOverflow && (nbytes_spec(old(self).shape@, tr)
                                is None || nbytes_spec(old(self).shape@, tr)->0 > usize::MAX)
                        },
                    }
                },
            },
    {
        let tr = match registry.lookup(self.ty) {
            Some(tr) => tr,
            None => {
                return Err(AppError::UnknownTensorType(self.ty));
            },
        };
        if tr.block_size == 0 || tr.type_size == 0 {
            return Err(AppError::UnknownTensorType(self.ty));
        }
        let nb = match tensor_nbytes(&self.shape, tr) {
            Ok(nb) => nb,
            Err(e) => {
                return Err(e);
            },
        };
        self.nbytes = nb;
        self.ty_name = ggml_ty(self.ty).type_label();
        Ok(())
    }
}

/// A parsed gguf container header.
#[derive(Debug)]
pub struct GgufFile {
    /// The typed metadata pairs, each with its declared type tag.
    pub metadata: Vec<(String, u32, MetaValue)>,
    /// The tensor records.
    pub tensors: Vec<GgmlTensorInfo>,
    /// The alignment selected by `general.alignment`, default 32.
    pub alignment: u64,
    /// The absolute file offset where the tensor data begins.
    pub data_start: u64,
}

/// The mathematical shape of a metadata pair.
pub open spec fn kv_view(e: (String, u32, MetaValue)) -> GgufKvV {
    GgufKvV { key: e.0@, tag: e.1, value: e.2.view_meta() }
}

/// The mathematical shape of a parsed header.
pub open spec fn gguf_view(g: GgufFile) -> GgufV {
    GgufV {
        kvs: g.metadata@.map_values(|e: (String, u32, MetaValue)| kv_view(e)),
        tensors: g.tensors@.map_values(|t: GgmlTensorInfo| rec_view(t)),
        alignment: g.alignment as int,
        data_start: g.data_start as int,
    }
}

/// Reads the metadata pairs of the header.
fn parse_kvs(bytes: &[u8], at: usize, n: u64) -> (r: Result<
    (Vec<(String, u32, MetaValue)>, usize),
    AppError,
>)
    requires
        at <= bytes@.len(),
    ensures
        match r {
            Ok((kvs, at2)) => p_kvs(bytes@, at as int, n as int) == Some(
                (
                    kvs@.map_values(|e: (String, u32, MetaValue)| kv_view(e)),
                    at2 as int,
                ),
            ) && at <= at2 <= bytes@.len(),
            Err(e) => p_kvs(bytes@, at as int, n as int) is None && (e
                == AppError::GgufTruncated || e == AppError::GgufBadString || e matches
                AppError::UnknownMetaType(_)),
        },
{
    let blen = bytes.len();
    let mut out: Vec<(String, u32, MetaValue)> = Vec::new();
    let mut cur: usize = at;
    let mut i: u64 = 0;
    proof {
        assert(out@.map_values(|e: (String, u32, MetaValue)| kv_view(e)) =~= Seq::<
            GgufKvV,
        >::empty());
    }
    while i < n
        invariant
            0 <= i <= n,
            at <= cur <= bytes@.len(),
            bytes@.len() == blen,
            ({
                let full = p_kvs(bytes@, at as int, n as int);
                let rest = p_kvs(bytes@, cur as int, n - i);
                let got = out@.map_values(|e: (String, u32, MetaValue)| kv_view(e));
                match rest {
                    Some((kvs, end)) => full == Some((got + kvs, end)),
                    None => full is None,
                }
            }),
        decreases n - i,
    {
        let ghost got0 = out@.map_values(|e: (String, u32, MetaValue)| kv_view(e));
        let (rawkey, at1) = match parse_string(bytes, cur) {
            Ok(x) => x,
            Err(e) => {
                return Err(e);
            },
        };
        let key = match bytes_to_string(rawkey) {
            Ok(k) => k,
            Err(e) => {
                return Err(e);
            },
        };
        if blen - at1 < 4 {
            return Err(AppError::GgufTruncated);
        }
        let tag = read_u32(bytes, at1, true);
        let (v, at2) = match parse_value(bytes, at1 + 4, tag) {
            Ok(x) => x,
            Err(e) => {
                return Err(e);
            },
        };
        let ghost entry_v = GgufKvV { key: key@, tag, value: v.view_meta() };
        out.push((key, tag, v));
        proof {
            assert(out@.map_values(|e: (String, u32, MetaValue)| kv_view(e)) =~= got0.push(
                entry_v,
            ));
            if p_kvs(bytes@, at2 as int, n - i - 1) is Some {
                let pr = p_kvs(bytes@, at2 as int, n - i - 1)->0;
                assert(got0.push(entry_v) + pr.0 =~= got0 + (seq![entry_v] + pr.0));
            }
        }
        cur = at2;
        i += 1;
    }
    proof {
        assert(p_kvs(bytes@, cur as int, 0) == Some((Seq::<GgufKvV>::empty(), cur as int)));
        assert(out@.map_values(|e: (String, u32, MetaValue)| kv_view(e)) + Seq::<
            GgufKvV,
        >::empty() =~= out@.map_values(|e: (String, u32, MetaValue)| kv_view(e)));
    }
    Ok((out, cur))
}

/// Reads the dimension list of a tensor record, in file order.
fn parse_dims(bytes: &[u8], at: usize, n: u32) -> (r: Result<(Vec<u64>, usize), AppError>)
    requires
        at <= bytes@.len(),
    ensures
        match r {
            Ok((ds, at2)) => p_dims(bytes@, at as int, n as int) == Some((ds@, at2 as int))
                && at <= at2 <= bytes@.len(),
            Err(e) => p_dims(bytes@, at as int, n as int) is None && e
                == AppError::GgufTruncated,
        },
{
    let blen = bytes.len();
    let mut out: Vec<u64> = Vec::new();
    let mut cur: usize = at;
    let mut i: u32 = 0;
    while i < n
        invariant
            0 <= i <= n,
            at <= cur <= bytes@.len(),
            bytes@.len() == blen,
            ({
                let full = p_dims(bytes@, at as int, n as int);
                let rest = p_dims(bytes@, cur as int, n - i);
                match rest {
                    Some((ds, end)) => full == Some((out@ + ds, end)),
                    None => full is None,
                }
            }),
        decreases n - i,
    {
        let ghost got0 = out@;
        if blen - cur < 8 {
            return Err(AppError::GgufTruncated);
        }
        let d = read_u64(bytes, cur, true);
        out.push(d);
        proof {
            assert(out@ =~= got0.push(d));
            if p_dims(bytes@, cur + 8, n - i - 1) is Some {
                let pr = p_dims(bytes@, cur + 8, n - i - 1)->0;
                assert(got0.push(d) + pr.0 =~= got0 + (seq![d] + pr.0));
            }
        }
        cur = cur + 8;
        i += 1;
    }
    proof {
        assert(p_dims(bytes@, cur as int, 0) == Some((Seq::<u64>::empty(), cur as int)));
        assert(out@ + Seq::<u64>::empty() =~= out@);
    }
    Ok((out, cur))
}

/// Reverses a dimension list into outermost-first order.
fn reverse_dims(ds: Vec<u64>) -> (r: Vec<u64>)
    ensures
        r@ == ds@.reverse(),
{
    let n = ds.len();
    let mut out: Vec<u64> = Vec::new();
    let mut i: usize = 0;
    while i < n
        invariant
            0 <= i <= n,
            n == ds@.len(),
            out@.len() == i,
            forall|j: int| 0 <= j < i ==> #[trigger] out@[j] == ds@[n - 1 - j],
        decreases n - i,
    {
        out.push(ds[n - 1 - i]);
        i += 1;
    }
    proof {
        assert(out@ =~= ds@.reverse());
    }
    out
}

/// Reads the tensor records of the header.
fn parse_tensors(bytes: &[u8], at: usize, n: u64, registry: &NumericRegistry) -> (r: Result<
    (Vec<GgmlTensorInfo>, usize),
    AppError,
>)
    requires
        at <= bytes@.len(),
    ensures
        match r {
            Ok((ts, at2)) => p_tensors(bytes@, at as int, n as int, registry.entries@) == Some(
                (
                    ts@.map_values(|t: GgmlTensorInfo| rec_view(t)),
                    at2 as int,
                ),
            ) && at <= at2 <= bytes@.len(),
            Err(e) => p_tensors(bytes@, at as int, n as int, registry.entries@) is None && (e
                == AppError::GgufTruncated || e == AppError::GgufBadString || e matches
                AppError::UnknownTensorType(_) || e == AppError::EmptyShape || e
                == AppError::SizeOverflow),
        },
{
    let blen = bytes.len();
    let mut out: Vec<GgmlTensorInfo> = Vec::new();
    let mut cur: usize = at;
    let mut i: u64 = 0;
    proof {
        assert(out@.map_values(|t: GgmlTensorInfo| rec_view(t)) =~= Seq::<TensorRecV>::empty());
    }
    while i < n
        invariant
            0 <= i <= n,
            at <= cur <= bytes@.len(),
            bytes@.len() == blen,
            ({
                let full = p_tensors(bytes@, at as int, n as int, registry.entries@);
                let rest = p_tensors(bytes@, cur as int, n - i, registry.entries@);
                let got = out@.map_values(|t: GgmlTensorInfo| rec_view(t));
                match rest {
                    Some((ts, end)) => full == Some((got + ts, end)),
                    None => full is None,
                }
            }),
        decreases n - i,
    {
        let ghost got0 = out@.map_values(|t: GgmlTensorInfo| rec_view(t));
        let (rawname, at1) = match parse_string(bytes, cur) {
            Ok(x) => x,
            Err(e) => {
                return Err(e);
            },
        };
        let name = match bytes_to_string(rawname) {
            Ok(k) => k,
            Err(e) => {
                return Err(e);
            },
        };
        if blen - at1 < 4 {
            return Err(AppError::GgufTruncated);
        }
        let nd = read_u32(bytes, at1, true);
        let (ds, at2) = match parse_dims(bytes, at1 + 4, nd) {
            Ok(x) => x,
            Err(e) => {
                return Err(e);
            },
        };
        if blen - at2 < 12 {
            return Err(AppError::GgufTruncated);
        }
        let ty = read_u32(bytes, at2, true);
        let offset = read_u64(bytes, at2 + 4, true);
        let shape = reverse_dims(ds);
        let tr = match registry.lookup(ty) {
            Some(tr) => tr,
            None => {
                return Err(AppError::UnknownTensorType(ty));
            },
        };
        if tr.block_size == 0 || tr.type_size == 0 {
            return Err(AppError::UnknownTensorType(ty));
        }
        let nb = match tensor_nbytes(&shape, tr) {
            Ok(nb) => nb,
            Err(e) => {
                return Err(e);
            },
        };
        let ty_name = ggml_ty(ty).type_label();
        let rec = GgmlTensorInfo { name, ty, ty_name, shape, nbytes: nb, offset };
        let ghost entry_v = rec_view(rec);
        out.push(rec);
        proof {
            assert(out@.map_values(|t: GgmlTensorInfo| rec_view(t)) =~= got0.push(entry_v));
            if p_tensors(bytes@, at2 + 12, n - i - 1, registry.entries@) is Some {
                let pr = p_tensors(bytes@, at2 + 12, n - i - 1, registry.entries@)->0;
                assert(got0.push(entry_v) + pr.0 =~= got0 + (seq![entry_v] + pr.0));
            }
        }
        cur = at2 + 12;
        i += 1;
    }
    proof {
        assert(p_tensors(bytes@, cur as int, 0, registry.entries@) == Some(
            (Seq::<TensorRecV>::empty(), cur as int),
        ));
        assert(out@.map_values(|t: GgmlTensorInfo| rec_view(t)) + Seq::<TensorRecV>::empty()
            =~= out@.map_values(|t: GgmlTensorInfo| rec_view(t)));
    }
    Ok((out, cur))
}

/// Finds the alignment the metadata selects, walking from the last
/// pair back: the value of `general.alignment` when it is a 32-bit
/// unsigned, else 32.
fn find_alignment(metadata: &Vec<(String, u32, MetaValue)>) -> (r: u64)
    ensures
        r as int == align_of_kvs(
            metadata@.map_values(|e: (String, u32, MetaValue)| kv_view(e)),
        ),
{
    let ghost kvs = metadata@.map_values(|e: (String, u32, MetaValue)| kv_view(e));
    let n = metadata.len();
    let mut i: usize = n;
    proof {
        assert(kvs.take(n as int) =~= kvs);
    }
    while i > 0
        invariant
            0 <= i <= n,
            n == metadata@.len(),
            kvs == metadata@.map_values(|e: (String, u32, MetaValue)| kv_view(e)),
            align_of_kvs(kvs) == align_of_kvs(kvs.take(i as int)),
        decreases i,
    {
        proof {
            assert(kvs.take(i as int).last() == kvs[i - 1]);
            assert(kvs.take(i as int).drop_last() =~= kvs.take(i - 1));
        }
        let is_key = metadata[i - 1].0.eq(&"general.alignment".to_owned());
        if is_key {
            let tag = metadata[i - 1].1;
            if tag == 4 {
                match &metadata[i - 1].2 {
                    MetaValue::UInt(a) => {
                        proof {
                            assert(kvs[i - 1].value is UInt);
                            assert(kvs[i - 1].value->UInt_0 == *a);
                        }
                        return *a;
                    },
                    _ => {
                        proof {
                            assert(!(kvs[i - 1].value is UInt));
                        }
                        return 32;
                    },
                }
            } else {
                return 32;
            }
        }
        i -= 1;
    }
    proof {
        assert(kvs.take(0) =~= Seq::<GgufKvV>::empty());
    }
    32
}

impl GgufFile {
    /// Parses a version 3 gguf header out of the file's bytes, deriving
    /// tensor byte sizes from the registry.  On success the result is
    /// exactly what the header spells, and the data-section origin is a
    /// multiple of the selected alignment.
    pub fn read(bytes: &[u8], registry: &NumericRegistry) -> (r: Result<GgufFile, AppError>)
        ensures
            match r {
                Ok(g) => {
                    &&& p_gguf(bytes@, registry.entries@) == Some(gguf_view(g))
                    &&& g.alignment > 0
                    &&& g.data_start as int % g.alignment as int == 0
                },
                Err(e) => {
                    &&& p_gguf(bytes@, registry.entries@) is None
                    &&& (e == AppError::NotGguf <==> bytes@.len() >= 4 && !(bytes@[0] == 71
                        && bytes@[1] == 71 && bytes@[2] == 85 && bytes@[3] == 70))
                    &&& (e == AppError::GgufVersion <==> bytes@.len() >= 8 && bytes@[0] == 71
                        && bytes@[1] == 71 && bytes@[2] == 85 && bytes@[3] == 70 && le32(
                        bytes@,
                        4,
                    ) != 3)
                    &&& (e == AppError::NotGguf || e == AppError::GgufVersion || e
                        == AppError::GgufTruncated || e == AppError::GgufBadString || e
                        matches AppError::UnknownMetaType(_) || e matches
                        AppError::UnknownTensorType(_) || e == AppError::EmptyShape || e
                        == AppError::SizeOverflow || e == AppError::BadAlignment)
                },
            },
    {
        let blen = bytes.len();
        if blen < 4 {
            return Err(AppError::GgufTruncated);
        }
        if !(bytes[0] == 71 && bytes[1] == 71 && bytes[2] == 85 && bytes[3] == 70) {
            return Err(AppError::NotGguf);
        }
        if blen < 8 {
            return Err(AppError::GgufTruncated);
        }
        if read_u32(bytes, 4, true) != 3 {
            return Err(AppError::GgufVersion);
        }
        if blen < 24 {
            return Err(AppError::GgufTruncated);
        }
        let tc = read_u64(bytes, 8, true);
        let kc = read_u64(bytes, 16, true);
        let (metadata, at1) = match parse_kvs(bytes, 24, kc) {
            Ok(x) => x,
            Err(e) => {
                return Err(e);
            },
        };
        let (tensors, at2) = match parse_tensors(bytes, at1, tc, registry) {
            Ok(x) => x,
            Err(e) => {
                return Err(e);
            },
        };
        let alignment = find_alignment(&metadata);
        if alignment == 0 {
            return Err(AppError::BadAlignment);
        }
        let pos = at2 as u64;
        let padding = (alignment - pos % alignment) % alignment;
        let data_start = match pos.checked_add(padding) {
            Some(ds) => ds,
            None => {
                return Err(AppError::SizeOverflow);
            },
        };
        proof {
            let a = alignment as int;
            let p = pos as int;
            assert(((p + (a - p % a) % a)) % a == 0) by (nonlinear_arith)
                requires
                    a > 0,
                    p >= 0,
            ;
        }
        let g = GgufFile { metadata, tensors, alignment, data_start };
        proof {
            assert(gguf_view(g) == p_gguf(bytes@, registry.entries@)->0);
        }
        Ok(g)
    }
}


/// The directory entry a tensor record contributes to the module tree.
pub open spec fn dir_entry_of(t: TensorRecV) -> (Seq<char>, crate::tree::TensorInfoV) {
    (
        t.name,
        crate::tree::TensorInfoV {
            ty: ggml_ty_spec(t.ty),
            shape: t.shape,
            size: t.nbytes as nat,
            offset: t.offset as nat,
        },
    )
}

/// A metadata value as the display map carries it: arrays longer than
/// 100 elements are replaced by a truncation marker.
pub open spec fn elide_spec(m: MetaV) -> MetaV {
    match m {
        MetaV::Array(a) => if a.len() > 100 {
            MetaV::Text("..."@)
        } else {
            m
        },
        _ => m,
    }
}

/// A gguf container bound to its byte storage.
pub struct Gguf<S> {
    /// The backing byte storage.
    pub storage: S,
    /// The parsed header.
    pub inner: GgufFile,
}

impl<S: Storage> Gguf<S> {
    /// Opens a gguf container: reads the storage's bytes and parses
    /// the header; whatever bytes the backend returned, a successful
    /// open holds exactly their parse.
    pub fn open(storage: S, registry: &NumericRegistry) -> (r: Result<Self, AppError>)
        ensures
            r matches Ok(g) ==> {
                &&& exists|bts: Seq<u8>|
                    p_gguf(bts, registry.entries@) == Some(gguf_view(g.inner))
                &&& g.inner.alignment > 0
                &&& g.inner.data_start as int % g.inner.alignment as int == 0
            },
    {
        let mut storage = storage;
        let bytes = match storage.read() {
            Ok(b) => b,
            Err(e) => {
                return Err(e);
            },
        };
        let inner = match GgufFile::read(bytes.as_slice(), registry) {
            Ok(g) => g,
            Err(e) => {
                return Err(e);
            },
        };
        proof {
            assert(p_gguf(bytes@, registry.entries@) == Some(gguf_view(inner)));
        }
        Ok(Gguf { storage, inner })
    }

    /// Rebuilds the module tree of the tensor directory.
    pub fn module(&self, split: &PathSplit) -> (r: Result<ModuleInfo, AppError>)
        ensures
            ({
                let PathSplit::Delim(d) = *split;
                let dir = gguf_view(self.inner).tensors.map_values(
                    |t: TensorRecV| dir_entry_of(t),
                );
                r matches Ok(m) && m.view_tree() == build_spec(dir, d) && m.keys_wf(d, true)
            }),
    {
        let ghost dir = gguf_view(self.inner).tensors.map_values(
            |t: TensorRecV| dir_entry_of(t),
        );
        let n = self.inner.tensors.len();
        let mut tensors: Vec<(String, TensorInfo)> = Vec::new();
        let mut i: usize = 0;
        while i < n
            invariant
                0 <= i <= n,
                n == self.inner.tensors@.len(),
                dir == gguf_view(self.inner).tensors.map_values(
                    |t: TensorRecV| dir_entry_of(t),
                ),
                dir.len() == n,
                tensors@.len() == i,
                forall|j: int|
                    0 <= j < i ==> ((#[trigger] tensors@[j]).0@, crate::tree::info_view(
                        tensors@[j].1,
                    )) == dir[j],
            decreases n - i,
        {
            let t = &self.inner.tensors[i];
            let info = TensorInfo {
                ty: ggml_ty(t.ty),
                shape: t.shape.clone(),
                size: t.nbytes,
                offset: t.offset,
            };
            proof {
                assert(dir[i as int] == dir_entry_of(
                    gguf_view(self.inner).tensors[i as int],
                ));
            }
            tensors.push((t.name.clone(), info));
            i += 1;
        }
        let ghost tg = tensors@;
        let m = ModuleInfo::build_from_tensors(tensors, split);
        proof {
            assert(entries_view(tg) =~= dir);
        }
        Ok(m)
    }

    /// The free-form metadata map: every pair of the typed store, with
    /// overlong arrays elided behind a truncation marker.
    pub fn metadata(&self) -> (r: Result<MetaValue, AppError>)
        ensures
            r matches Ok(m) && m.view_meta() == MetaV::Object(
                gguf_view(self.inner).kvs.map_values(
                    |e: GgufKvV| (e.key, elide_spec(e.value)),
                ),
            ),
    {
        let ghost kvs = gguf_view(self.inner).kvs;
        let n = self.inner.metadata.len();
        let mut out: Vec<(String, MetaValue)> = Vec::new();
        let mut i: usize = 0;
        while i < n
            invariant
                0 <= i <= n,
                n == self.inner.metadata@.len(),
                kvs == gguf_view(self.inner).kvs,
                kvs.len() == n,
                out@.len() == i,
                forall|j: int|
                    0 <= j < i ==> ((#[trigger] out@[j]).0@, out@[j].1.view_meta()) == (
                        kvs[j].key,
                        elide_spec(kvs[j].value),
                    ),
            decreases n - i,
        {
            let e = &self.inner.metadata[i];
            let elided = match &e.2 {
                MetaValue::Array(a) => if a.len() > 100 {
                    MetaValue::Text("...".to_owned())
                } else {
                    e.2.clone()
                },
                _ => e.2.clone(),
            };
            proof {
                assert(kvs[i as int] == kv_view(self.inner.metadata@[i as int]));
            }
            out.push((e.0.clone(), elided));
            i += 1;
        }
        let m = MetaValue::Object(out);
        proof {
            assert(m.view_meta()->Object_0 =~= kvs.map_values(
                |e: GgufKvV| (e.key, elide_spec(e.value)),
            ));
            assert(m.view_meta() == MetaV::Object(
                kvs.map_values(|e: GgufKvV| (e.key, elide_spec(e.value))),
            ));
        }
        Ok(m)
    }

    /// Rewriting gguf metadata is a deliberate capability gap: every
    /// call fails.
    pub fn write_metadata(&mut self, metadata: &MetaValue) -> (r: Result<(), AppError>)
        ensures
            r == Err::<(), AppError>(AppError::GgufWriteUnsupported),
            *final(self) == *old(self),
    {
        Err(AppError::GgufWriteUnsupported)
    }

    /// Reads the raw bytes of one tensor: `nbytes` bytes starting at
    /// the tensor's offset past the data-section origin.
    pub fn tensor_bytes(&mut self, offset: u64, nbytes: usize) -> (r: Result<Vec<u8>, AppError>)
        ensures
            old(self).inner.data_start + offset > u64::MAX ==> r == Err::<
                Vec<u8>,
                AppError,
            >(AppError::SizeOverflow),
            final(self).inner == old(self).inner,
    {
        let start = match self.inner.data_start.checked_add(offset) {
            Some(s) => s,
            None => {
                return Err(AppError::SizeOverflow);
            },
        };
        self.storage.read_range(start, nbytes)
    }
}

} // verus!
