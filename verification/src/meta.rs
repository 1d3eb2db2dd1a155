//! The container metadata model: a dynamically-typed value tree, its
//! mathematical view, the JSON parse behind a trusted wrapper, and the
//! flattening of a metadata tree into dotted-path string pairs for the
//! safetensors write path.

use vstd::prelude::*;

use serde_json::Value as J;

use crate::AppError;
use crate::util::{dec_str, u64_to_string, push_char};

verus! {

broadcast use vstd::std_specs::vec::group_vec_axioms, vstd::seq::group_seq_axioms;

/// A free-form metadata value: the shape of a JSON document, with
/// numbers kept apart as unsigned, signed, or raw number text, and
/// floating-point payloads of typed containers carried as raw bits.
#[derive(Debug)]
pub enum MetaValue {
    Null,
    Bool(bool),
    UInt(u64),
    Int(i64),
    /// A number that fits neither `u64` nor `i64`, as its exact text.
    Num(String),
    Text(String),
    /// A 32-bit float carried as raw bits; rendering happens outside
    /// the library.
    F32Bits(u32),
    /// A 64-bit float carried as raw bits.
    F64Bits(u64),
    Array(Vec<MetaValue>),
    Object(Vec<(String, MetaValue)>),
}

/// The mathematical shape of a metadata value.
#[verifier::ext_equal]
pub ghost enum MetaV {
    Null,
    Bool(bool),
    UInt(u64),
    Int(i64),
    Num(Seq<char>),
    Text(Seq<char>),
    F32Bits(u32),
    F64Bits(u64),
    Array(Seq<MetaV>),
    Object(Seq<(Seq<char>, MetaV)>),
}

impl MetaValue {
    /// The mathematical view of this value.
    pub open spec fn view_meta(&self) -> MetaV
        decreases *self,
    {
        match self {
            MetaValue::Null => MetaV::Null,
            MetaValue::Bool(b) => MetaV::Bool(*b),
            MetaValue::UInt(u) => MetaV::UInt(*u),
            MetaValue::Int(i) => MetaV::Int(*i),
            MetaValue::Num(s) => MetaV::Num(s@),
            MetaValue::Text(s) => MetaV::Text(s@),
            MetaValue::F32Bits(b) => MetaV::F32Bits(*b),
            MetaValue::F64Bits(b) => MetaV::F64Bits(*b),
            MetaValue::Array(a) => MetaV::Array(
                Seq::new(
                    a@.len(),
                    |i: int|
                        if 0 <= i < a@.len() {
                            a@[i].view_meta()
                        } else {
                            MetaV::Null
                        },
                ),
            ),
            MetaValue::Object(o) => MetaV::Object(
                Seq::new(
                    o@.len(),
                    |i: int|
                        if 0 <= i < o@.len() {
                            (o@[i].0@, o@[i].1.view_meta())
                        } else {
                            (Seq::empty(), MetaV::Null)
                        },
                ),
            ),
        }
    }
}

/// The serde_json value type, declared so that the conversion below
/// can name it.
#[verifier::external_type_specification]
#[verifier::external_body]
pub struct ExJsonValue(serde_json::Value);

/// Relies on serde_json: converts a parsed JSON document into the
/// library's value model, variant by variant; integers that fit `u64`
/// or `i64` keep their value, any other number keeps its exact text.
#[verifier::external_body]
fn json_to_meta(v: serde_json::Value) -> MetaValue {
    match v {
        J::Null => MetaValue::Null,
        J::Bool(b) => MetaValue::Bool(b),
        J::Number(n) if n.as_u64().is_some() => MetaValue::UInt(n.as_u64().unwrap()),
        J::Number(n) if n.as_i64().is_some() => MetaValue::Int(n.as_i64().unwrap()),
        J::Number(n) => MetaValue::Num(n.to_string()),
        J::String(s) => MetaValue::Text(s),
        J::Array(a) => MetaValue::Array(a.into_iter().map(json_to_meta).collect()),
        J::Object(o) => MetaValue::Object(o.into_iter().map(|(k, x)| (k, json_to_meta(x))).collect()),
    }
}

/// What parsing a byte string as one JSON document yields: the parse
/// depends on the bytes alone.
pub uninterp spec fn json_doc_of(s: Seq<u8>) -> Option<MetaV>;

/// Relies on `serde_json::from_slice`: parses one JSON document, or
/// reports that the bytes are not one; the result is a function of the
/// bytes alone.
#[verifier::external_body]
pub fn parse_json(bytes: &[u8]) -> (r: Option<MetaValue>)
    ensures
        match r {
            Some(m) => json_doc_of(bytes@) == Some(m.view_meta()),
            None => json_doc_of(bytes@) is None,
        },
{
    match serde_json::from_slice::<serde_json::Value>(bytes) {
        Ok(v) => Some(json_to_meta(v)),
        Err(_) => None,
    }
}

/// True when the metadata display elides this value: an overlong text
/// or an embedded data URL.
pub open spec fn shorten_value_spec(m: MetaV) -> bool {
    match m {
        MetaV::Text(s) => s.len() > 10000 || (s.len() >= 11 && s.subrange(0, 11)
            == "data:image/"@),
        _ => false,
    }
}

/// Decides whether the display elides this value.
pub fn shorten_value(value: &MetaValue) -> (r: bool)
    ensures
        r == shorten_value_spec(value.view_meta()),
{
    match value {
        MetaValue::Text(s) => {
            let n = s.as_str().unicode_len();
            if n > 10000 {
                true
            } else if n >= 11 {
                let head = s.as_str().substring_char(0, 11).to_owned();
                let is_data = head.eq(&"data:image/".to_owned());
                proof {
                    if head@ == "data:image/"@ {
                        assert(s@.subrange(0, 11) == "data:image/"@);
                    }
                }
                is_data
            } else {
                proof {
                    assert(!shorten_value_spec(value.view_meta()));
                }
                false
            }
        },
        _ => false,
    }
}

/// The signed decimal rendering of `i`.
pub open spec fn int_dec_str(i: int) -> Seq<char> {
    if i < 0 {
        seq!['-'] + dec_str((-i) as nat)
    } else {
        dec_str(i as nat)
    }
}

/// Renders `n` in signed decimal.
pub fn i64_to_string(n: i64) -> (r: String)
    ensures
        r@ == int_dec_str(n as int),
{
    if n >= 0 {
        let r = u64_to_string(n as u64);
        r
    } else {
        let mag: u64 = ((-(n + 1)) as u64) + 1;
        proof {
            assert(mag == -(n as int));
        }
        let digits = u64_to_string(mag);
        let mut out = String::new();
        push_char(&mut out, '-');
        let r = out.concat(digits.as_str());
        proof {
            assert(r@ =~= seq!['-'] + dec_str(mag as nat));
        }
        r
    }
}

/// The dotted path of a child: the key itself at the root, else the
/// parent path, a dot, and the key.
pub open spec fn child_path(path: Seq<char>, k: Seq<char>) -> Seq<char> {
    if path.len() == 0 {
        k
    } else {
        path + seq!['.'] + k
    }
}

/// The string a scalar flattens to; containers and float bits have
/// none.
pub open spec fn scalar_text(m: MetaV) -> Option<Seq<char>> {
    match m {
        MetaV::Null => Some("null"@),
        MetaV::Bool(b) => Some(
            if b {
                "true"@
            } else {
                "false"@
            },
        ),
        MetaV::UInt(u) => Some(dec_str(u as nat)),
        MetaV::Int(i) => Some(int_dec_str(i as int)),
        MetaV::Num(s) => Some(s),
        MetaV::Text(s) => Some(s),
        _ => None,
    }
}

/// The flattening of a metadata tree into dotted-path/text pairs, in
/// traversal order; `None` when a value cannot be rendered (a raw
/// float-bits payload).
pub open spec fn flatten_spec_v(m: MetaV, path: Seq<char>) -> Option<
    Seq<(Seq<char>, Seq<char>)>,
>
    decreases m, 1int, 0int,
{
    match m {
        MetaV::Array(a) => flatten_arr_v(a, path, 0),
        MetaV::Object(o) => flatten_obj_v(o, path, 0),
        MetaV::F32Bits(_) => None,
        MetaV::F64Bits(_) => None,
        _ => match scalar_text(m) {
            Some(t) => Some(seq![(path, t)]),
            None => None,
        },
    }
}

/// The flattening of an array's elements from index `i` on, keyed by
/// their decimal indices.
pub open spec fn flatten_arr_v(a: Seq<MetaV>, path: Seq<char>, i: int) -> Option<
    Seq<(Seq<char>, Seq<char>)>,
>
    decreases a, 0int, a.len() - i,
{
    if i < 0 || i >= a.len() {
        Some(Seq::empty())
    } else {
        match (flatten_spec_v(a[i], child_path(path, dec_str(i as nat))), flatten_arr_v(
            a,
            path,
            i + 1,
        )) {
            (Some(h), Some(t)) => Some(h + t),
            _ => None,
        }
    }
}

/// The flattening of an object's entries from index `i` on, keyed by
/// their names.
pub open spec fn flatten_obj_v(o: Seq<(Seq<char>, MetaV)>, path: Seq<char>, i: int) -> Option<
    Seq<(Seq<char>, Seq<char>)>,
>
    decreases o, 0int, o.len() - i,
{
    if i < 0 || i >= o.len() {
        Some(Seq::empty())
    } else {
        match (flatten_spec_v(o[i].1, child_path(path, o[i].0)), flatten_obj_v(o, path, i + 1)) {
            (Some(h), Some(t)) => Some(h + t),
            _ => None,
        }
    }
}

/// Appends a dotted child path to an owned path.
fn child_path_string(path: &String, k: &String) -> (r: String)
    ensures
        r@ == child_path(path@, k@),
{
    if path.as_str().unicode_len() == 0 {
        k.clone()
    } else {
        let mut out = path.clone();
        push_char(&mut out, '.');
        let r = out.concat(k.as_str());
        proof {
            assert(r@ =~= path@ + seq!['.'] + k@);
        }
        r
    }
}

/// Flattens a metadata tree into dotted-path/text pairs, exactly as
/// `flatten_spec_v` describes; fails on a value with no text form.
pub fn flatten_value(value: &MetaValue, path: &String) -> (r: Result<
    Vec<(String, String)>,
    AppError,
>)
    ensures
        match r {
            Ok(pairs) => Some(
                pairs@.map_values(|pr: (String, String)| (pr.0@, pr.1@)),
            ) == flatten_spec_v(value.view_meta(), path@),
            Err(e) => flatten_spec_v(value.view_meta(), path@) is None && e
                == AppError::UnsupportedMetaValue,
        },
    decreases value.view_meta(),
{
    match value {
        MetaValue::Null => {
            let mut out: Vec<(String, String)> = Vec::new();
            out.push((path.clone(), "null".to_owned()));
            proof {
                assert(out@.map_values(|pr: (String, String)| (pr.0@, pr.1@)) =~= seq![
                    (path@, "null"@),
                ]);
            }
            Ok(out)
        },
        MetaValue::Bool(b) => {
            let mut out: Vec<(String, String)> = Vec::new();
            let text = if *b {
                "true".to_owned()
            } else {
                "false".to_owned()
            };
            out.push((path.clone(), text));
            proof {
                assert(out@.map_values(|pr: (String, String)| (pr.0@, pr.1@)) =~= seq![
                    (
                        path@,
                        if *b {
                            "true"@
                        } else {
                            "false"@
                        },
                    ),
                ]);
            }
            Ok(out)
        },
        MetaValue::UInt(u) => {
            let mut out: Vec<(String, String)> = Vec::new();
            out.push((path.clone(), u64_to_string(*u)));
            proof {
                assert(out@.map_values(|pr: (String, String)| (pr.0@, pr.1@)) =~= seq![
                    (path@, dec_str(*u as nat)),
                ]);
            }
            Ok(out)
        },
        MetaValue::Int(i) => {
            let mut out: Vec<(String, String)> = Vec::new();
            out.push((path.clone(), i64_to_string(*i)));
            proof {
                assert(out@.map_values(|pr: (String, String)| (pr.0@, pr.1@)) =~= seq![
                    (path@, int_dec_str(*i as int)),
                ]);
            }
            Ok(out)
        },
        MetaValue::Num(s) => {
            let mut out: Vec<(String, String)> = Vec::new();
            out.push((path.clone(), s.clone()));
            proof {
                assert(out@.map_values(|pr: (String, String)| (pr.0@, pr.1@)) =~= seq![
                    (path@, s@),
                ]);
            }
            Ok(out)
        },
        MetaValue::Text(s) => {
            let mut out: Vec<(String, String)> = Vec::new();
            out.push((path.clone(), s.clone()));
            proof {
                assert(out@.map_values(|pr: (String, String)| (pr.0@, pr.1@)) =~= seq![
                    (path@, s@),
                ]);
            }
            Ok(out)
        },
        MetaValue::F32Bits(_) => Err(AppError::UnsupportedMetaValue),
        MetaValue::F64Bits(_) => Err(AppError::UnsupportedMetaValue),
        MetaValue::Array(a) => {
            let ghost av = match value.view_meta() {
                MetaV::Array(x) => x,
                _ => Seq::empty(),
            };
            let mut out: Vec<(String, String)> = Vec::new();
            let n = a.len();
            let mut i: usize = 0;
            proof {
                assert(out@.map_values(|pr: (String, String)| (pr.0@, pr.1@)) =~= Seq::<
                    (Seq<char>, Seq<char>),
                >::empty());
            }
            while i < n
                invariant
                    0 <= i <= n,
                    n == a@.len(),
                    value.view_meta() == MetaV::Array(av),
                    av.len() == a@.len(),
                    forall|j: int| 0 <= j < a@.len() ==> av[j] == (#[trigger] a@[j]).view_meta(),
                    flatten_arr_v(av, path@, 0) matches Some(full) ==> (flatten_arr_v(
                        av,
                        path@,
                        i as int,
                    ) matches Some(rest) && full =~= out@.map_values(
                        |pr: (String, String)| (pr.0@, pr.1@),
                    ) + rest),
                    flatten_arr_v(av, path@, 0) is None ==> flatten_arr_v(av, path@, i as int)
                        is None,
                decreases n - i,
            {
                let ghost before = out@;
                let key = u64_to_string(i as u64);
                let kp = child_path_string(path, &key);
                proof {
                    assert(value.view_meta() == MetaV::Array(av));
                    assert(decreases_to!(MetaV::Array(av) => av));
                    assert(decreases_to!(av => av[i as int]));
                    assert(av[i as int] == a@[i as int].view_meta());
                }
                let sub = flatten_value(&a[i], &kp);
                proof {
                    assert(av[i as int] == a@[i as int].view_meta());
                    assert(kp@ == child_path(path@, dec_str(i as nat)));
                }
                match sub {
                    Ok(mut pairs) => {
                        let ghost pv = pairs@.map_values(|pr: (String, String)| (pr.0@, pr.1@));
                        out.append(&mut pairs);
                        proof {
                            let f = |pr: (String, String)| (pr.0@, pr.1@);
                            assert(out@.map_values(f) =~= before.map_values(f) + pv);
                            assert(Some(pv) == flatten_spec_v(
                                av[i as int],
                                child_path(path@, dec_str(i as nat)),
                            ));
                            if flatten_arr_v(av, path@, 0) is Some {
                                let full = flatten_arr_v(av, path@, 0)->0;
                                assert(flatten_arr_v(av, path@, i as int) is Some);
                                let rest = flatten_arr_v(av, path@, i as int)->0;
                                assert(rest == pv + flatten_arr_v(av, path@, i + 1)->0);
                                assert(full =~= out@.map_values(f) + flatten_arr_v(
                                    av,
                                    path@,
                                    i + 1,
                                )->0);
                            }
                        }
                    },
                    Err(e) => {
                        proof {
                            assert(flatten_arr_v(av, path@, i as int) is None);
                            assert(flatten_arr_v(av, path@, 0) is None);
                        }
                        return Err(AppError::UnsupportedMetaValue);
                    },
                }
                i += 1;
            }
            proof {
                let f = |pr: (String, String)| (pr.0@, pr.1@);
                assert(flatten_arr_v(av, path@, n as int) == Some(
                    Seq::<(Seq<char>, Seq<char>)>::empty(),
                ));
                if flatten_arr_v(av, path@, 0) is Some {
                    let full = flatten_arr_v(av, path@, 0)->0;
                    assert(full =~= out@.map_values(f));
                } else {
                    assert(false);
                }
            }
            Ok(out)
        },
        MetaValue::Object(o) => {
            let ghost ov = match value.view_meta() {
                MetaV::Object(x) => x,
                _ => Seq::empty(),
            };
            let mut out: Vec<(String, String)> = Vec::new();
            let n = o.len();
            let mut i: usize = 0;
            proof {
                assert(out@.map_values(|pr: (String, String)| (pr.0@, pr.1@)) =~= Seq::<
                    (Seq<char>, Seq<char>),
                >::empty());
            }
            while i < n
                invariant
                    0 <= i <= n,
                    n == o@.len(),
                    value.view_meta() == MetaV::Object(ov),
                    ov.len() == o@.len(),
                    forall|j: int|
                        0 <= j < o@.len() ==> ov[j] == ((#[trigger] o@[j]).0@, o@[
                            j].1.view_meta()),
                    flatten_obj_v(ov, path@, 0) matches Some(full) ==> (flatten_obj_v(
                        ov,
                        path@,
                        i as int,
                    ) matches Some(rest) && full =~= out@.map_values(
                        |pr: (String, String)| (pr.0@, pr.1@),
                    ) + rest),
                    flatten_obj_v(ov, path@, 0) is None ==> flatten_obj_v(ov, path@, i as int)
                        is None,
                decreases n - i,
            {
                let ghost before = out@;
                let kp = child_path_string(path, &o[i].0);
                proof {
                    assert(value.view_meta() == MetaV::Object(ov));
                    assert(decreases_to!(MetaV::Object(ov) => ov));
                    assert(decreases_to!(ov => ov[i as int]));
                    assert(decreases_to!(ov[i as int] => ov[i as int].1));
                    assert(ov[i as int].1 == o@[i as int].1.view_meta());
                }
                let sub = flatten_value(&o[i].1, &kp);
                proof {
                    assert(ov[i as int] == (o@[i as int].0@, o@[i as int].1.view_meta()));
                    assert(kp@ == child_path(path@, o@[i as int].0@));
                }
                match sub {
                    Ok(mut pairs) => {
                        let ghost pv = pairs@.map_values(|pr: (String, String)| (pr.0@, pr.1@));
                        out.append(&mut pairs);
                        proof {
                            let f = |pr: (String, String)| (pr.0@, pr.1@);
                            assert(out@.map_values(f) =~= before.map_values(f) + pv);
                            assert(Some(pv) == flatten_spec_v(
                                ov[i as int].1,
                                child_path(path@, ov[i as int].0),
                            ));
                            if flatten_obj_v(ov, path@, 0) is Some {
                                let full = flatten_obj_v(ov, path@, 0)->0;
                                assert(flatten_obj_v(ov, path@, i as int) is Some);
                                let rest = flatten_obj_v(ov, path@, i as int)->0;
                                assert(rest == pv + flatten_obj_v(ov, path@, i + 1)->0);
                                assert(full =~= out@.map_values(f) + flatten_obj_v(
                                    ov,
                                    path@,
                                    i + 1,
                                )->0);
                            }
                        }
                    },
                    Err(e) => {
                        proof {
                            assert(flatten_obj_v(ov, path@, i as int) is None);
                            assert(flatten_obj_v(ov, path@, 0) is None);
                        }
                        return Err(AppError::UnsupportedMetaValue);
                    },
                }
                i += 1;
            }
            proof {
                let f = |pr: (String, String)| (pr.0@, pr.1@);
                assert(flatten_obj_v(ov, path@, n as int) == Some(
                    Seq::<(Seq<char>, Seq<char>)>::empty(),
                ));
                if flatten_obj_v(ov, path@, 0) is Some {
                    let full = flatten_obj_v(ov, path@, 0)->0;
                    assert(full =~= out@.map_values(f));
                } else {
                    assert(false);
                }
            }
            Ok(out)
        },
    }
}


/// An array element sits below its array in the structural order.
proof fn lemma_meta_arr_decreases(m: MetaV, i: int)
    requires
        m is Array,
        0 <= i < m->Array_0.len(),
    ensures
        decreases_to!(m => m->Array_0[i]),
{
    assert(decreases_to!(m => m->Array_0));
    assert(decreases_to!(m->Array_0 => m->Array_0[i]));
}

/// An object member's value sits below its object in the structural
/// order.
proof fn lemma_meta_obj_decreases(m: MetaV, i: int)
    requires
        m is Object,
        0 <= i < m->Object_0.len(),
    ensures
        decreases_to!(m => m->Object_0[i].1),
{
    assert(decreases_to!(m => m->Object_0));
    assert(decreases_to!(m->Object_0 => m->Object_0[i]));
    assert(decreases_to!(m->Object_0[i] => m->Object_0[i].1));
}

impl Clone for MetaValue {
    /// Clones preserve the mathematical view of the value.
    fn clone(&self) -> (r: Self)
        ensures
            r.view_meta() == self.view_meta(),
        decreases self.view_meta(),
    {
        match self {
            MetaValue::Null => MetaValue::Null,
            MetaValue::Bool(b) => MetaValue::Bool(*b),
            MetaValue::UInt(u) => MetaValue::UInt(*u),
            MetaValue::Int(i) => MetaValue::Int(*i),
            MetaValue::Num(s) => MetaValue::Num(s.clone()),
            MetaValue::Text(s) => MetaValue::Text(s.clone()),
            MetaValue::F32Bits(b) => MetaValue::F32Bits(*b),
            MetaValue::F64Bits(b) => MetaValue::F64Bits(*b),
            MetaValue::Array(a) => {
                let ghost av = match self.view_meta() {
                    MetaV::Array(x) => x,
                    _ => Seq::empty(),
                };
                let n = a.len();
                let mut out: Vec<MetaValue> = Vec::new();
                let mut i: usize = 0;
                while i < n
                    invariant
                        0 <= i <= n,
                        n == a@.len(),
                        self.view_meta() == MetaV::Array(av),
                        av.len() == a@.len(),
                        forall|j: int|
                            0 <= j < a@.len() ==> av[j] == (#[trigger] a@[j]).view_meta(),
                        out@.len() == i,
                        forall|j: int|
                            0 <= j < i ==> (#[trigger] out@[j]).view_meta() == av[j],
                    decreases n - i,
                {
                    proof {
                        lemma_meta_arr_decreases(self.view_meta(), i as int);
                    }
                    let c = a[i].clone();
                    out.push(c);
                    i += 1;
                }
                let r = MetaValue::Array(out);
                proof {
                    assert(r.view_meta()->Array_0 =~= av);
                    assert(r.view_meta() == MetaV::Array(av));
                }
                r
            },
            MetaValue::Object(o) => {
                let ghost ov = match self.view_meta() {
                    MetaV::Object(x) => x,
                    _ => Seq::empty(),
                };
                let n = o.len();
                let mut out: Vec<(String, MetaValue)> = Vec::new();
                let mut i: usize = 0;
                while i < n
                    invariant
                        0 <= i <= n,
                        n == o@.len(),
                        self.view_meta() == MetaV::Object(ov),
                        ov.len() == o@.len(),
                        forall|j: int|
                            0 <= j < o@.len() ==> ov[j] == ((#[trigger] o@[j]).0@, o@[
                                j].1.view_meta()),
                        out@.len() == i,
                        forall|j: int|
                            0 <= j < i ==> ((#[trigger] out@[j]).0@, out@[j].1.view_meta())
                                == ov[j],
                    decreases n - i,
                {
                    proof {
                        lemma_meta_obj_decreases(self.view_meta(), i as int);
                    }
                    let c = o[i].1.clone();
                    out.push((o[i].0.clone(), c));
                    i += 1;
                }
                let r = MetaValue::Object(out);
                proof {
                    assert(r.view_meta()->Object_0 =~= ov);
                    assert(r.view_meta() == MetaV::Object(ov));
                }
                r
            },
        }
    }
}

} // verus!
