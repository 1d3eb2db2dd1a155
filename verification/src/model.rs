//! Shared data model: tensor element types, the uniform tensor
//! descriptor, path keys into the module tree, and the name-splitting
//! policy.

use vstd::prelude::*;

use crate::util::{dec_str, lex_lt, sat_product, product_u64, u64_to_string};

verus! {

/// A ggml numeric type identifier, as stored in gguf tensor records.
pub type GgmlTypeId = u32;

/// The element type of a tensor.
#[derive(Debug)]
#[allow(non_camel_case_types)]
pub enum TensorTy {
    BOOL,
    U8,
    I8,
    F8_E5M2,
    F8_E4M3,
    I16,
    U16,
    I32,
    U32,
    F16,
    BF16,
    F32,
    F64,
    I64,
    U64,
    /// An opaque (usually block-quantized) type of the external numeric
    /// type registry, identified by its ggml type id.
    Ggml(GgmlTypeId),
    /// A declared type name this library does not know.
    Unknown(String),
}

/// The display text of a tensor element type.
pub open spec fn type_label_spec(t: TensorTy) -> Seq<char> {
    match t {
        TensorTy::BOOL => "BOOL"@,
        TensorTy::U8 => "U8"@,
        TensorTy::I8 => "I8"@,
        TensorTy::F8_E5M2 => "F8_E5M2"@,
        TensorTy::F8_E4M3 => "F8_E4M3"@,
        TensorTy::I16 => "I16"@,
        TensorTy::U16 => "U16"@,
        TensorTy::I32 => "I32"@,
        TensorTy::U32 => "U32"@,
        TensorTy::F16 => "F16"@,
        TensorTy::BF16 => "BF16"@,
        TensorTy::F32 => "F32"@,
        TensorTy::F64 => "F64"@,
        TensorTy::I64 => "I64"@,
        TensorTy::U64 => "U64"@,
        TensorTy::Ggml(id) => "GGML#"@ + dec_str(id as nat),
        TensorTy::Unknown(text) => text@,
    }
}

impl TensorTy {
    /// Renders the type for display.
    pub fn type_label(&self) -> (r: String)
        ensures
            r@ == type_label_spec(*self),
    {
        match self {
            TensorTy::BOOL => "BOOL".to_owned(),
            TensorTy::U8 => "U8".to_owned(),
            TensorTy::I8 => "I8".to_owned(),
            TensorTy::F8_E5M2 => "F8_E5M2".to_owned(),
            TensorTy::F8_E4M3 => "F8_E4M3".to_owned(),
            TensorTy::I16 => "I16".to_owned(),
            TensorTy::U16 => "U16".to_owned(),
            TensorTy::I32 => "I32".to_owned(),
            TensorTy::U32 => "U32".to_owned(),
            TensorTy::F16 => "F16".to_owned(),
            TensorTy::BF16 => "BF16".to_owned(),
            TensorTy::F32 => "F32".to_owned(),
            TensorTy::F64 => "F64".to_owned(),
            TensorTy::I64 => "I64".to_owned(),
            TensorTy::U64 => "U64".to_owned(),
            TensorTy::Ggml(id) => "GGML#".to_owned().concat(u64_to_string(*id as u64).as_str()),
            TensorTy::Unknown(text) => text.clone(),
        }
    }
}

impl Clone for TensorTy {
    /// Clones preserve the type exactly.
    fn clone(&self) -> (r: Self)
        ensures
            r == *self,
    {
        match self {
            TensorTy::BOOL => TensorTy::BOOL,
            TensorTy::U8 => TensorTy::U8,
            TensorTy::I8 => TensorTy::I8,
            TensorTy::F8_E5M2 => TensorTy::F8_E5M2,
            TensorTy::F8_E4M3 => TensorTy::F8_E4M3,
            TensorTy::I16 => TensorTy::I16,
            TensorTy::U16 => TensorTy::U16,
            TensorTy::I32 => TensorTy::I32,
            TensorTy::U32 => TensorTy::U32,
            TensorTy::F16 => TensorTy::F16,
            TensorTy::BF16 => TensorTy::BF16,
            TensorTy::F32 => TensorTy::F32,
            TensorTy::F64 => TensorTy::F64,
            TensorTy::I64 => TensorTy::I64,
            TensorTy::U64 => TensorTy::U64,
            TensorTy::Ggml(id) => TensorTy::Ggml(*id),
            TensorTy::Unknown(text) => TensorTy::Unknown(text.clone()),
        }
    }
}

/// The uniform descriptor of one tensor in a container: element type,
/// shape outermost first, encoded byte size, and the byte offset
/// relative to the container's data-section origin.
#[derive(Debug)]
pub struct TensorInfo {
    pub ty: TensorTy,
    pub shape: Vec<u64>,
    pub size: usize,
    pub offset: u64,
}

impl TensorInfo {
    /// The number of elements this descriptor covers: the saturating
    /// product of its dimensions.
    pub fn params(&self) -> (r: u64)
        ensures
            r == sat_product(self.shape@),
    {
        product_u64(&self.shape)
    }
}

impl Clone for TensorInfo {
    /// Clones preserve every field exactly.
    fn clone(&self) -> (r: Self)
        ensures
            r.ty == self.ty,
            r.shape@ == self.shape@,
            r.size == self.size,
            r.offset == self.offset,
    {
        let r = TensorInfo {
            ty: self.ty.clone(),
            shape: self.shape.clone(),
            size: self.size,
            offset: self.offset,
        };
        proof {
            assert(r.shape@ =~= self.shape@);
        }
        r
    }
}

/// A path segment of a module-tree node.  A key borrows a range of a
/// node's absolute dotted path: the backing string plus character
/// offsets, so that joining keys never reparses text.  Keys compare by
/// the text of the range alone.
#[derive(Debug)]
pub struct Key {
    pub full: String,
    pub start: usize,
    pub end: usize,
}

impl Key {
    /// The offsets select a range of the backing string.
    pub open spec fn wf(&self) -> bool {
        self.start <= self.end <= self.full@.len()
    }

    /// The text this key stands for.
    pub open spec fn text(&self) -> Seq<char> {
        self.full@.subrange(self.start as int, self.end as int)
    }

    /// Extracts the key's text as an owned string.
    pub fn text_string(&self) -> (r: String)
        requires
            self.wf(),
        ensures
            r@ == self.text(),
    {
        self.full.as_str().substring_char(self.start, self.end).to_owned()
    }

    /// True when both keys stand for the same text.
    pub fn text_equals(&self, other: &Key) -> (r: bool)
        requires
            self.wf(),
            other.wf(),
        ensures
            r == (self.text() == other.text()),
    {
        let a = self.text_string();
        let b = other.text_string();
        let r = a.eq(&b);
        proof {
            if a@ == b@ {
                assert(self.text() =~= other.text());
            }
        }
        r
    }

    /// True when this key's text orders strictly before `other`'s.
    pub fn text_lt(&self, other: &Key) -> (r: bool)
        requires
            self.wf(),
            other.wf(),
        ensures
            r == lex_lt(self.text(), other.text()),
    {
        let a = self.text_string();
        let b = other.text_string();
        crate::util::str_lex_lt(a.as_str(), b.as_str())
    }

    /// Widens the key to cover the backing string from its beginning:
    /// the absolute path of the node the key names.
    pub fn absolute(self) -> (r: Self)
        requires
            self.wf(),
        ensures
            r.wf(),
            r.full == self.full,
            r.start == 0,
            r.end == self.end,
            r.text() == self.full@.subrange(0, self.end as int),
    {
        Key { full: self.full, start: 0, end: self.end }
    }

    /// Joins this key with a child key that shares the backing text up
    /// to this key's end: the result covers both ranges and whatever
    /// separates them.
    pub fn join(&self, child: Key) -> (r: Key)
        requires
            self.wf(),
            child.wf(),
            self.end <= child.start,
            child.full@.subrange(0, self.end as int) == self.full@.subrange(
                0,
                self.end as int,
            ),
        ensures
            r.wf(),
            r.full == child.full,
            r.start == self.start,
            r.end == child.end,
            r.text() == self.text() + child.full@.subrange(
                self.end as int,
                child.start as int,
            ) + child.text(),
    {
        let ghost cfull = child.full@;
        let r = Key { full: child.full, start: self.start, end: child.end };
        proof {
            let p1 = cfull.subrange(0, self.end as int);
            let p2 = self.full@.subrange(0, self.end as int);
            assert forall|i: int| self.start <= i < self.end implies cfull[i]
                == self.full@[i] by {
                assert(p1[i] == p2[i]);
            }
            assert(cfull.subrange(self.start as int, self.end as int) =~= self.text());
            assert(r.text() =~= cfull.subrange(self.start as int, self.end as int)
                + cfull.subrange(self.end as int, child.start as int) + cfull.subrange(
                child.start as int,
                child.end as int,
            ));
        }
        r
    }
}

impl Clone for Key {
    /// Clones preserve the backing string and the range exactly.
    fn clone(&self) -> (r: Self)
        ensures
            r == *self,
    {
        Key { full: self.full.clone(), start: self.start, end: self.end }
    }
}

impl Default for Key {
    /// The empty key: the root node's name.
    fn default() -> (r: Self)
        ensures
            r.wf(),
            r.full@ == Seq::<char>::empty(),
            r.start == 0,
            r.end == 0,
    {
        let r = Key { full: String::new(), start: 0, end: 0 };
        r
    }
}

/// How a flat tensor name splits into path segments.
pub enum PathSplit {
    /// Split on every occurrence of the delimiter character.
    Delim(char),
}

impl Default for PathSplit {
    /// The default policy splits on `'.'`.
    fn default() -> (r: Self)
        ensures
            r == PathSplit::Delim('.'),
    {
        PathSplit::Delim('.')
    }
}

impl PathSplit {
    /// The delimiter character of this policy.
    pub fn delim(&self) -> (c: char)
        ensures
            *self == PathSplit::Delim(c),
    {
        match self {
            PathSplit::Delim(c) => *c,
        }
    }
}

/// The segments of `s` split on the delimiter `d`; splitting the empty
/// text yields one empty segment.
pub open spec fn split_chars(s: Seq<char>, d: char) -> Seq<Seq<char>>
    decreases s.len(),
{
    if s.len() == 0 {
        seq![Seq::<char>::empty()]
    } else if s.last() == d {
        split_chars(s.drop_last(), d).push(Seq::<char>::empty())
    } else {
        let rest = split_chars(s.drop_last(), d);
        rest.update(rest.len() - 1, rest.last().push(s.last()))
    }
}

/// Splitting always yields at least one segment.
pub proof fn lemma_split_chars_len(s: Seq<char>, d: char)
    ensures
        split_chars(s, d).len() >= 1,
    decreases s.len(),
{
    if s.len() > 0 {
        lemma_split_chars_len(s.drop_last(), d);
    }
}

impl PathSplit {
    /// Splits a flat tensor name into its path segments, as keys that
    /// share one backing string.
    pub fn split(&self, fullname: &str) -> (r: Vec<Key>)
        ensures
            ({
                let PathSplit::Delim(d) = *self;
                let segs = split_chars(fullname@, d);
                &&& r@.len() == segs.len()
                &&& forall|j: int| 0 <= j < r@.len() ==> (#[trigger] r@[j]).wf()
                &&& forall|j: int| 0 <= j < r@.len() ==> (#[trigger] r@[j]).full@ == fullname@
                &&& forall|j: int| 0 <= j < r@.len() ==> (#[trigger] r@[j]).text() == segs[j]
                &&& r@[0].start == 0
                &&& r@[r@.len() - 1].end == fullname@.len()
                &&& forall|j: int|
                    1 <= j < r@.len() ==> (#[trigger] r@[j]).start == r@[j - 1].end + 1
                &&& forall|j: int|
                    1 <= j < r@.len() ==> fullname@[(#[trigger] r@[j]).start - 1] == d
            }),
    {
        let PathSplit::Delim(d) = *self;
        let ghost s = fullname@;
        let n = fullname.unicode_len();
        let mut out: Vec<Key> = Vec::new();
        let mut seg_start: usize = 0;
        let mut i: usize = 0;
        proof {
            assert(s.take(0) =~= Seq::<char>::empty());
        }
        while i < n
            invariant
                0 <= seg_start <= i <= n,
                n == s.len(),
                s == fullname@,
                split_chars(s.take(i as int), d) =~= out@.map_values(|k: Key| k.text()).push(
                    s.subrange(seg_start as int, i as int),
                ),
                forall|j: int| 0 <= j < out@.len() ==> (#[trigger] out@[j]).wf(),
                forall|j: int| 0 <= j < out@.len() ==> (#[trigger] out@[j]).full@ == s,
                out@.len() > 0 ==> out@[0].start == 0,
                out@.len() == 0 ==> seg_start == 0,
                out@.len() > 0 ==> seg_start == out@[out@.len() - 1].end + 1,
                forall|j: int|
                    1 <= j < out@.len() ==> (#[trigger] out@[j]).start == out@[j - 1].end + 1,
                forall|j: int|
                    1 <= j < out@.len() ==> s[(#[trigger] out@[j]).start - 1] == d,
                seg_start > 0 ==> s[seg_start - 1] == d,
            decreases n - i,
        {
            let c = fullname.get_char(i);
            proof {
                assert(s.take(i + 1).drop_last() =~= s.take(i as int));
                assert(s.take(i + 1).last() == s[i as int]);
            }
            if c == d {
                let ghost prev = out@;
                let key = Key { full: fullname.to_owned(), start: seg_start, end: i };
                let ghost k = key;
                out.push(key);
                proof {
                    let texts = out@.map_values(|k: Key| k.text());
                    assert(out@[prev.len() as int] == k);
                    assert(k.full@ == s);
                    assert(out@[prev.len() as int].text() =~= s.subrange(
                        seg_start as int,
                        i as int,
                    ));
                    assert(texts =~= prev.map_values(|k: Key| k.text()).push(
                        s.subrange(seg_start as int, i as int),
                    ));
                    assert(split_chars(s.take(i + 1), d) =~~= texts.push(
                        s.subrange(i + 1, i + 1),
                    ));
                }
                seg_start = i + 1;
            } else {
                proof {
                    let prev = out@.map_values(|k: Key| k.text()).push(
                        s.subrange(seg_start as int, i as int),
                    );
                    assert(prev.last() == s.subrange(seg_start as int, i as int));
                    assert(s.subrange(seg_start as int, i as int).push(s[i as int]) =~= s.subrange(
                        seg_start as int,
                        i + 1,
                    ));
                    assert(split_chars(s.take(i + 1), d) =~~= out@.map_values(
                        |k: Key| k.text(),
                    ).push(s.subrange(seg_start as int, i + 1)));
                }
            }
            i += 1;
        }
        let ghost prev = out@;
        let key = Key { full: fullname.to_owned(), start: seg_start, end: n };
        let ghost k = key;
        out.push(key);
        proof {
            assert(s.take(n as int) =~= s);
            let texts = out@.map_values(|k: Key| k.text());
            assert(out@[prev.len() as int] == k);
            assert(k.full@ == s);
            assert(out@[prev.len() as int].text() =~= s.subrange(seg_start as int, n as int));
            assert(texts =~= prev.map_values(|k: Key| k.text()).push(
                s.subrange(seg_start as int, n as int),
            ));
            assert(split_chars(s, d) =~~= texts);
            assert(forall|j: int|
                0 <= j < out@.len() ==> (#[trigger] out@[j]).text() == texts[j]);
        }
        out
    }
}

} // verus!
