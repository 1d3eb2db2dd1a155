//! The module tree: a hierarchy rebuilt from flat tensor names.  Each
//! node carries an optional tensor descriptor, its children ordered by
//! key text, and running totals of tensors and parameters over the
//! whole subtree.

use vstd::prelude::*;

use crate::model::{Key, PathSplit, TensorInfo, TensorTy, split_chars};
use crate::util::{lex_lt, sat_add, sat_product};

verus! {

broadcast use vstd::std_specs::vec::group_vec_axioms, vstd::seq::group_seq_axioms;

/// The mathematical shape of a tensor descriptor.
pub ghost struct TensorInfoV {
    pub ty: TensorTy,
    pub shape: Seq<u64>,
    pub size: nat,
    pub offset: nat,
}

/// The mathematical shape of a descriptor value.
pub open spec fn info_view(i: TensorInfo) -> TensorInfoV {
    TensorInfoV { ty: i.ty, shape: i.shape@, size: i.size as nat, offset: i.offset as nat }
}

/// The mathematical shape of a module tree: node name (absolute path),
/// optional descriptor, ordered children keyed by segment text, and the
/// stored totals.
pub ghost struct TreeV {
    pub name: Seq<char>,
    pub tensor: Option<TensorInfoV>,
    pub children: Seq<(Seq<char>, TreeV)>,
    pub tensors: u64,
    pub params: u64,
}

/// A tree node with no descriptor, no children and zero totals.
pub open spec fn empty_tree_v(name: Seq<char>) -> TreeV {
    TreeV { name, tensor: None, children: Seq::empty(), tensors: 0, params: 0 }
}

/// A node of the module tree.
#[derive(Debug)]
pub struct ModuleInfo {
    /// The absolute dotted path of this node; empty at the root.
    pub full_name: Key,
    /// The descriptor, present at tensor leaves.
    pub tensor_info: Option<TensorInfo>,
    /// Children ordered by key text, keys unique.
    pub children: Vec<(Key, ModuleInfo)>,
    /// Tensors in this subtree, itself included.
    pub total_tensors: u64,
    /// Parameters in this subtree, itself included (saturating).
    pub total_params: u64,
}

impl ModuleInfo {
    /// The mathematical tree this node stands for.
    pub open spec fn view_tree(&self) -> TreeV
        decreases *self,
    {
        TreeV {
            name: self.full_name.text(),
            tensor: match self.tensor_info {
                Some(i) => Some(info_view(i)),
                None => None,
            },
            children: Seq::new(
                self.children@.len(),
                |i: int|
                    if 0 <= i < self.children@.len() {
                        (self.children@[i].0.text(), self.children@[i].1.view_tree())
                    } else {
                        (Seq::empty(), empty_tree_v(Seq::empty()))
                    },
            ),
            tensors: self.total_tensors,
            params: self.total_params,
        }
    }

    /// Structural well-formedness of the keys in this subtree, for the
    /// delimiter `d`.  Each child's entry key continues its parent's
    /// absolute path after one delimiter (no delimiter below the root),
    /// shares its backing with the child's own absolute name, and the
    /// children are strictly ordered by key text.
    pub open spec fn keys_wf(&self, d: char, is_root: bool) -> bool
        decreases *self,
    {
        &&& self.full_name.wf()
        &&& self.full_name.start == 0
        &&& (is_root ==> self.full_name.end == 0)
        &&& (forall|i: int|
            0 <= i < self.children@.len() ==> {
                let ck = (#[trigger] self.children@[i]).0;
                let cv = self.children@[i].1;
                &&& ck.wf()
                &&& ck.full@ == cv.full_name.full@
                &&& ck.end == cv.full_name.end
                &&& ck.start == if is_root {
                    0int
                } else {
                    self.full_name.end + 1
                }
                &&& (!is_root ==> ck.full@.subrange(0, self.full_name.end as int)
                    == self.full_name.text() && ck.full@[self.full_name.end as int] == d)
                &&& cv.keys_wf(d, false)
            })
        &&& (forall|i: int, j: int|
            0 <= i < j < self.children@.len() ==> lex_lt(
                (#[trigger] self.children@[i]).0.text(),
                (#[trigger] self.children@[j]).0.text(),
            ))
    }

    /// Creates a childless node named by `full_name`.
    pub fn new(full_name: Key) -> (r: Self)
        ensures
            r.full_name == full_name,
            r.tensor_info is None,
            r.children@.len() == 0,
            r.total_tensors == 0,
            r.total_params == 0,
            r.view_tree() == empty_tree_v(full_name.text()),
    {
        let r = ModuleInfo {
            full_name,
            tensor_info: None,
            children: Vec::new(),
            total_tensors: 0,
            total_params: 0,
        };
        proof {
            assert(r.view_tree().children =~= Seq::<(Seq<char>, TreeV)>::empty());
        }
        r
    }
}

impl Default for ModuleInfo {
    /// The empty root: empty name, no descriptor, no children.
    fn default() -> (r: Self)
        ensures
            r.view_tree() == empty_tree_v(Seq::<char>::empty()),
            forall|d: char| r.keys_wf(d, true),
            r.full_name.end == 0,
            r.full_name.start == 0,
            r.full_name.wf(),
    {
        let r = ModuleInfo {
            full_name: Key::default(),
            tensor_info: None,
            children: Vec::new(),
            total_tensors: 0,
            total_params: 0,
        };
        proof {
            assert(r.view_tree().children =~= Seq::<(Seq<char>, TreeV)>::empty());
            assert(r.full_name.text() =~= Seq::<char>::empty());
        }
        r
    }
}

/// The position at which `key` stands or belongs among the child
/// entries: the index of the first entry whose key text is not below
/// `key`.
pub open spec fn scan_pos(cs: Seq<(Seq<char>, TreeV)>, key: Seq<char>) -> int
    decreases cs.len(),
{
    if cs.len() == 0 {
        0
    } else if lex_lt(cs[0].0, key) {
        1 + scan_pos(cs.drop_first(), key)
    } else {
        0
    }
}

/// `scan_pos` stays within the sequence.
pub proof fn lemma_scan_pos_range(cs: Seq<(Seq<char>, TreeV)>, key: Seq<char>)
    ensures
        0 <= scan_pos(cs, key) <= cs.len(),
    decreases cs.len(),
{
    if cs.len() > 0 && lex_lt(cs[0].0, key) {
        lemma_scan_pos_range(cs.drop_first(), key);
    }
}

/// The concatenation of path segments under the delimiter `d`.
pub open spec fn joined(ss: Seq<Seq<char>>, d: char) -> Seq<char>
    decreases ss.len(),
{
    if ss.len() == 0 {
        Seq::empty()
    } else if ss.len() == 1 {
        ss[0]
    } else {
        joined(ss.drop_last(), d) + seq![d] + ss.last()
    }
}

/// One tensor inserted into the tree, starting at segment `at` of its
/// split name: every node along the path has its totals raised, missing
/// nodes are created in key order, and the final node receives the
/// descriptor.
pub open spec fn insert_rec_spec(
    t: TreeV,
    ss: Seq<Seq<char>>,
    at: int,
    d: char,
    info: TensorInfoV,
    p: u64,
) -> TreeV
    decreases ss.len() - at,
{
    let t1 = TreeV {
        tensors: sat_add(t.tensors, 1),
        params: sat_add(t.params, p),
        ..t
    };
    if at < 0 || at >= ss.len() {
        TreeV { tensor: Some(info), ..t1 }
    } else {
        let key = ss[at];
        let pos = scan_pos(t1.children, key);
        if pos < t1.children.len() && t1.children[pos].0 == key {
            let sub = insert_rec_spec(t1.children[pos].1, ss, at + 1, d, info, p);
            TreeV { children: t1.children.update(pos, (t1.children[pos].0, sub)), ..t1 }
        } else {
            let fresh = empty_tree_v(joined(ss.take(at + 1), d));
            let sub = insert_rec_spec(fresh, ss, at + 1, d, info, p);
            TreeV { children: t1.children.insert(pos, (key, sub)), ..t1 }
        }
    }
}

/// One named tensor inserted into the tree from the root.
pub open spec fn insert_full_spec(t: TreeV, name: Seq<char>, d: char, info: TensorInfoV) -> TreeV {
    insert_rec_spec(t, split_chars(name, d), 0, d, info, sat_product(info.shape))
}

/// The tree built from a directory of named tensors, inserted in order
/// into an empty root.
pub open spec fn build_spec(entries: Seq<(Seq<char>, TensorInfoV)>, d: char) -> TreeV
    decreases entries.len(),
{
    if entries.len() == 0 {
        empty_tree_v(Seq::empty())
    } else {
        insert_full_spec(
            build_spec(entries.drop_last(), d),
            entries.last().0,
            d,
            entries.last().1,
        )
    }
}

/// The well-formedness facts `PathSplit::split` guarantees of a
/// segment vector, restated for the insertion proofs: shared backing,
/// contiguous ranges separated by the delimiter, and text agreement
/// with `split_chars`.
pub open spec fn segs_wf(segs: Seq<Key>, s: Seq<char>, d: char) -> bool {
    &&& segs.len() >= 1
    &&& forall|j: int| 0 <= j < segs.len() ==> (#[trigger] segs[j]).wf()
    &&& forall|j: int| 0 <= j < segs.len() ==> (#[trigger] segs[j]).full@ == s
    &&& segs[0].start == 0
    &&& segs[segs.len() - 1].end == s.len()
    &&& forall|j: int| 1 <= j < segs.len() ==> (#[trigger] segs[j]).start == segs[j - 1].end + 1
    &&& forall|j: int| 1 <= j < segs.len() ==> s[(#[trigger] segs[j]).start - 1] == d
    &&& forall|j: int|
        0 <= j < segs.len() ==> (#[trigger] segs[j]).text() == split_chars(s, d)[j]
    &&& segs.len() == split_chars(s, d).len()
}

/// The texts of a segment vector.
pub open spec fn key_texts(segs: Seq<Key>) -> Seq<Seq<char>> {
    segs.map_values(|k: Key| k.text())
}

/// Under `segs_wf`, the backing string up to a segment's end is the
/// join of the segment texts so far.
pub proof fn lemma_segs_joined(segs: Seq<Key>, s: Seq<char>, d: char, j: int)
    requires
        segs_wf(segs, s, d),
        0 <= j < segs.len(),
    ensures
        s.subrange(0, segs[j].end as int) == joined(key_texts(segs).take(j + 1), d),
    decreases j,
{
    let ss = key_texts(segs);
    if j == 0 {
        assert(ss.take(1) =~= seq![segs[0].text()]);
        assert(joined(ss.take(1), d) == segs[0].text());
        assert(s.subrange(0, segs[0].end as int) =~= segs[0].text());
    } else {
        lemma_segs_joined(segs, s, d, j - 1);
        assert(ss.take(j + 1).drop_last() =~= ss.take(j));
        assert(ss.take(j + 1).last() == segs[j].text());
        assert(ss.take(j + 1).len() == j + 1 >= 2);
        assert(joined(ss.take(j + 1), d) == joined(ss.take(j), d) + seq![d] + segs[j].text());
        assert(s.subrange(0, segs[j].end as int) =~= s.subrange(0, segs[j - 1].end as int)
            + seq![s[segs[j].start - 1]] + s.subrange(segs[j].start as int, segs[j].end as int));
    }
}

/// The views of the child entries of an exec node.
pub open spec fn children_view(cs: Seq<(Key, ModuleInfo)>) -> Seq<(Seq<char>, TreeV)> {
    Seq::new(
        cs.len(),
        |i: int|
            if 0 <= i < cs.len() {
                (cs[i].0.text(), cs[i].1.view_tree())
            } else {
                (Seq::empty(), empty_tree_v(Seq::empty()))
            },
    )
}

/// When everything before `pos` orders below `key` and `pos` does not,
/// `pos` is the scan position.
pub proof fn lemma_scan_pos_is(cs: Seq<(Seq<char>, TreeV)>, key: Seq<char>, pos: int)
    requires
        0 <= pos <= cs.len(),
        forall|i: int| 0 <= i < pos ==> lex_lt((#[trigger] cs[i]).0, key),
        pos < cs.len() ==> !lex_lt(cs[pos].0, key),
    ensures
        scan_pos(cs, key) == pos,
    decreases pos,
{
    if cs.len() == 0 {
    } else if pos == 0 {
    } else {
        assert(lex_lt(cs[0].0, key));
        lemma_scan_pos_is(cs.drop_first(), key, pos - 1);
    }
}

/// Inserts one tensor below `node`, which stands at depth `at` of the
/// split name `segs`.
#[verifier::rlimit(100)]
fn insert_rec(
    node: ModuleInfo,
    segs: &Vec<Key>,
    at: usize,
    info: TensorInfo,
    p: u64,
    Ghost(s): Ghost<Seq<char>>,
    Ghost(d): Ghost<char>,
) -> (r: ModuleInfo)
    requires
        p == sat_product(info.shape@),
        segs_wf(segs@, s, d),
        at <= segs@.len(),
        node.keys_wf(d, at == 0),
        node.full_name.end as int == (if at == 0 {
            0int
        } else {
            segs@[at - 1].end as int
        }),
        at > 0 ==> node.full_name.text() == joined(key_texts(segs@).take(at as int), d),
    ensures
        r.view_tree() == insert_rec_spec(
            node.view_tree(),
            key_texts(segs@),
            at as int,
            d,
            info_view(info),
            p,
        ),
        r.keys_wf(d, at == 0),
        r.full_name == node.full_name,
    decreases segs@.len() - at,
{
    let ghost ss = key_texts(segs@);
    let ghost v0 = node.view_tree();
    let mut node = node;
    node.total_tensors = crate::util::saturating_add_u64(node.total_tensors, 1);
    node.total_params = crate::util::saturating_add_u64(node.total_params, p);
    let ghost v1 = TreeV { tensors: sat_add(v0.tensors, 1), params: sat_add(v0.params, p), ..v0 };
    proof {
        assert(node.view_tree().children =~= v1.children);
        assert(node.view_tree() == v1);
    }
    if at == segs.len() {
        node.tensor_info = Some(info);
        proof {
            assert(node.view_tree().children =~= v1.children);
            assert(node.view_tree() == TreeV { tensor: Some(info_view(info)), ..v1 });
        }
        return node;
    }
    let ghost key_t = ss[at as int];
    proof {
        assert(segs@[at as int].text() == split_chars(s, d)[at as int]);
    }
    let n = node.children.len();
    let mut pos: usize = 0;
    loop
        invariant
            0 <= pos <= n,
            n == node.children@.len(),
            segs_wf(segs@, s, d),
            at < segs@.len(),
            node.keys_wf(d, at == 0),
            forall|i: int|
                0 <= i < pos ==> lex_lt((#[trigger] node.children@[i]).0.text(), key_t),
            key_t == segs@[at as int].text(),
        ensures
            0 <= pos <= n,
            pos == scan_pos(children_view(node.children@), key_t),
            pos < n ==> !lex_lt(node.children@[pos as int].0.text(), key_t),
            forall|i: int|
                0 <= i < pos ==> lex_lt((#[trigger] node.children@[i]).0.text(), key_t),
        decreases n - pos,
    {
        if pos >= n {
            proof {
                lemma_scan_pos_is(children_view(node.children@), key_t, pos as int);
            }
            break;
        }
        proof {
            assert(node.children@[pos as int].0.wf());
        }
        let below = node.children[pos].0.text_lt(&segs[at]);
        if !below {
            proof {
                lemma_scan_pos_is(children_view(node.children@), key_t, pos as int);
            }
            break;
        }
        pos += 1;
    }
    let found = if pos < n {
        proof {
            assert(node.children@[pos as int].0.wf());
        }
        node.children[pos].0.text_equals(&segs[at])
    } else {
        false
    };
    let ghost cs0 = children_view(node.children@);
    let ghost ecs0 = node.children@;
    proof {
        assert(cs0 =~= node.view_tree().children);
        assert(cs0 == v1.children);
    }
    if found {
        let (ck, cv) = node.children.remove(pos);
        let ghost ckg = ck;
        let ghost cvg = cv;
        proof {
            // The matched child continues the path: its name ends where
            // this segment ends and reads as the joined path so far.
            assert(ckg == ecs0[pos as int].0);
            assert(cvg == ecs0[pos as int].1);
            assert(ckg.text() == key_t);
            assert(ckg.text().len() == ckg.end - ckg.start);
            assert(key_t.len() == segs@[at as int].end - segs@[at as int].start);
            assert(ckg.full@ == cvg.full_name.full@);
            assert(ckg.end == cvg.full_name.end);
            assert(cvg.keys_wf(d, false));
            assert(cvg.full_name.start == 0);
            assert(cvg.full_name.wf());
            assert(cvg.full_name.text() =~= ckg.full@.subrange(0, ckg.end as int));
            if at == 0 {
                assert(ckg.start == 0);
                assert(cvg.full_name.text() =~= ckg.text());
                assert(ss.take(1) =~= seq![key_t]);
                assert(joined(ss.take(1), d) == key_t);
            } else {
                assert(ckg.start == node.full_name.end + 1);
                lemma_segs_joined(segs@, s, d, at - 1);
                assert(ss.take(at + 1).drop_last() =~= ss.take(at as int));
                assert(ss.take(at + 1).last() == key_t);
                assert(joined(ss.take(at + 1), d) == joined(ss.take(at as int), d) + seq![d]
                    + key_t);
                assert(ckg.full@.subrange(0, ckg.end as int) =~= ckg.full@.subrange(
                    0,
                    node.full_name.end as int,
                ) + seq![ckg.full@[node.full_name.end as int]] + ckg.text());
            }
            assert(cvg.full_name.text() == joined(ss.take(at + 1), d));
            assert(cvg.full_name.end == segs@[at as int].end);
            assert(cvg.keys_wf(d, false));
        }
        let cv2 = insert_rec(cv, segs, at + 1, info, p, Ghost(s), Ghost(d));
        node.children.insert(pos, (ck, cv2));
        proof {
            let spec_sub = insert_rec_spec(cs0[pos as int].1, ss, at + 1, d, info_view(info), p);
            assert(cs0[pos as int].1 == cvg.view_tree());
            assert(cv2.view_tree() == spec_sub);
            assert(node.children@ =~= ecs0.update(pos as int, (ckg, cv2)));
            assert(children_view(node.children@) =~= cs0.update(
                pos as int,
                (cs0[pos as int].0, spec_sub),
            ));
            assert(node.view_tree().children =~= children_view(node.children@));
            assert(node.view_tree() == insert_rec_spec(v0, ss, at as int, d, info_view(info), p));
            // Well-formedness: only one child changed, and it kept its
            // key, its name, and its subtree keys.
            assert forall|i: int| 0 <= i < node.children@.len() implies {
                let ck2 = (#[trigger] node.children@[i]).0;
                let cv3 = node.children@[i].1;
                &&& ck2.wf()
                &&& ck2.full@ == cv3.full_name.full@
                &&& ck2.end == cv3.full_name.end
                &&& ck2.start == if at == 0 {
                    0int
                } else {
                    node.full_name.end + 1
                }
                &&& (!(at == 0) ==> ck2.full@.subrange(0, node.full_name.end as int)
                    == node.full_name.text() && ck2.full@[node.full_name.end as int] == d)
                &&& cv3.keys_wf(d, false)
            } by {
                assert(ecs0[i] == ecs0[i]);
                if i == pos {
                    assert(node.children@[i].0 == ckg);
                    assert(node.children@[i].1 == cv2);
                    assert(cv2.full_name == cvg.full_name);
                } else {
                    assert(node.children@[i] == ecs0[i]);
                }
            }
            assert forall|i: int, j: int|
                0 <= i < j < node.children@.len() implies lex_lt(
                (#[trigger] node.children@[i]).0.text(),
                (#[trigger] node.children@[j]).0.text(),
            ) by {
                assert(node.children@[i].0 == ecs0[i].0);
                assert(node.children@[j].0 == ecs0[j].0);
            }
            assert(node.keys_wf(d, at == 0));
        }
        node
    } else {
        let kk = segs[at].clone();
        let fresh_name = segs[at].clone().absolute();
        proof {
            lemma_segs_joined(segs@, s, d, at as int);
            assert(fresh_name.text() == joined(ss.take(at + 1), d));
        }
        let fresh = ModuleInfo::new(fresh_name);
        proof {
            assert(fresh.keys_wf(d, false));
            assert(fresh.full_name.end == segs@[at as int].end);
        }
        let sub = insert_rec(fresh, segs, at + 1, info, p, Ghost(s), Ghost(d));
        node.children.insert(pos, (kk, sub));
        proof {
            let fresh_v = empty_tree_v(joined(ss.take(at + 1), d));
            let spec_sub = insert_rec_spec(fresh_v, ss, at + 1, d, info_view(info), p);
            assert(sub.view_tree() == spec_sub);
            assert(node.children@ =~= ecs0.insert(pos as int, (segs@[at as int], sub)));
            assert(children_view(node.children@) =~= cs0.insert(pos as int, (key_t, spec_sub)));
            assert(node.view_tree().children =~= children_view(node.children@));
            assert(node.view_tree() == insert_rec_spec(v0, ss, at as int, d, info_view(info), p));
            // The fresh entry continues the path like any other child.
            assert(sub.full_name == fresh.full_name);
            assert(segs@[at as int].full@ == s);
            assert(segs@[at as int].end - segs@[at as int].start == key_t.len());
            if at > 0 {
                lemma_segs_joined(segs@, s, d, at - 1);
                assert(segs@[at as int].start == node.full_name.end + 1);
                assert(s.subrange(0, node.full_name.end as int) == joined(
                    ss.take(at as int),
                    d,
                ));
                assert(s[node.full_name.end as int] == d);
            }
            assert forall|i: int| 0 <= i < node.children@.len() implies {
                let ck2 = (#[trigger] node.children@[i]).0;
                let cv3 = node.children@[i].1;
                &&& ck2.wf()
                &&& ck2.full@ == cv3.full_name.full@
                &&& ck2.end == cv3.full_name.end
                &&& ck2.start == if at == 0 {
                    0int
                } else {
                    node.full_name.end + 1
                }
                &&& (!(at == 0) ==> ck2.full@.subrange(0, node.full_name.end as int)
                    == node.full_name.text() && ck2.full@[node.full_name.end as int] == d)
                &&& cv3.keys_wf(d, false)
            } by {
                if i == pos {
                    assert(node.children@[i].0 == segs@[at as int]);
                    assert(node.children@[i].1 == sub);
                } else if i < pos {
                    assert(node.children@[i] == ecs0[i]);
                } else {
                    assert(node.children@[i] == ecs0[i - 1]);
                }
            }
            // Order: everything before the insertion point is below the
            // key, everything after is above it.
            if pos < n {
                crate::util::lemma_lex_lt_total(key_t, cs0[pos as int].0);
                assert(lex_lt(key_t, ecs0[pos as int].0.text()));
            }
            assert forall|i: int, j: int|
                0 <= i < j < node.children@.len() implies lex_lt(
                (#[trigger] node.children@[i]).0.text(),
                (#[trigger] node.children@[j]).0.text(),
            ) by {
                if j < pos {
                    assert(node.children@[i].0 == ecs0[i].0);
                    assert(node.children@[j].0 == ecs0[j].0);
                } else if j == pos {
                    assert(node.children@[i].0 == ecs0[i].0);
                    assert(lex_lt(ecs0[i].0.text(), key_t));
                } else if i == pos {
                    assert(node.children@[j].0 == ecs0[j - 1].0);
                    if j - 1 == pos {
                        assert(lex_lt(key_t, ecs0[pos as int].0.text()));
                    } else {
                        crate::util::lemma_lex_lt_trans(
                            key_t,
                            ecs0[pos as int].0.text(),
                            ecs0[j - 1].0.text(),
                        );
                    }
                } else if i < pos {
                    assert(node.children@[i].0 == ecs0[i].0);
                    assert(node.children@[j].0 == ecs0[j - 1].0);
                    if j - 1 == i {
                        assert(lex_lt(ecs0[i].0.text(), key_t));
                        assert(false);
                    } else {
                        assert(lex_lt(ecs0[i].0.text(), ecs0[j - 1].0.text()));
                    }
                } else {
                    assert(node.children@[i].0 == ecs0[i - 1].0);
                    assert(node.children@[j].0 == ecs0[j - 1].0);
                    assert(lex_lt(ecs0[i - 1].0.text(), ecs0[j - 1].0.text()));
                }
            }
            assert(node.keys_wf(d, at == 0));
        }
        node
    }
}


/// The name/descriptor pairs of a tensor directory, as text.
pub open spec fn entries_view(ts: Seq<(String, TensorInfo)>) -> Seq<(Seq<char>, TensorInfoV)> {
    ts.map_values(|pr: (String, TensorInfo)| (pr.0@, info_view(pr.1)))
}

impl ModuleInfo {
    /// Builds the module tree of a tensor directory: every name is
    /// split into path segments and inserted in order.
    pub fn build_from_tensors(tensors: Vec<(String, TensorInfo)>, split: &PathSplit) -> (r:
        ModuleInfo)
        ensures
            ({
                let PathSplit::Delim(d) = *split;
                &&& r.view_tree() == build_spec(entries_view(tensors@), d)
                &&& r.keys_wf(d, true)
                &&& r.full_name.end == 0
            }),
    {
        let d = split.delim();
        let ghost orig = tensors@;
        let mut tensors = tensors;
        let mut root = ModuleInfo::default();
        let ghost mut done: Seq<(Seq<char>, TensorInfoV)> = Seq::empty();
        proof {
            assert(entries_view(orig.take(0)) =~= done);
        }
        while tensors.len() > 0
            invariant
                *split == PathSplit::Delim(d),
                root.view_tree() == build_spec(done, d),
                root.keys_wf(d, true),
                root.full_name.end == 0,
                done == entries_view(orig.take(orig.len() - tensors@.len())),
                tensors@.len() <= orig.len(),
                tensors@ =~= orig.skip(orig.len() - tensors@.len()),
            decreases tensors@.len(),
        {
            let ghost i = orig.len() - tensors@.len();
            let (name, info) = tensors.remove(0);
            proof {
                assert(orig.skip(i).drop_first() =~= orig.skip(i + 1));
                assert((name, info) == orig[i]);
            }
            let p = info.params();
            let segs = split.split(name.as_str());
            proof {
                crate::model::lemma_split_chars_len(name@, d);
                assert(segs@.len() == split_chars(name@, d).len());
                assert(segs@.len() >= 1);
                assert(forall|j: int| 0 <= j < segs@.len() ==> (#[trigger] segs@[j]).wf());
                assert(forall|j: int|
                    0 <= j < segs@.len() ==> (#[trigger] segs@[j]).full@ == name@);
                assert(segs@[0].start == 0);
                assert(segs@[segs@.len() - 1].end == name@.len());
                assert(segs_wf(segs@, name@, d));
                assert(key_texts(segs@) =~= split_chars(name@, d));
            }
            root = insert_rec(root, &segs, 0, info, p, Ghost(name@), Ghost(d));
            proof {
                let done2 = done.push((name@, info_view(info)));
                assert(entries_view(orig.take(i + 1)) =~= done2);
                assert(done2.drop_last() =~= done);
                assert(done2.last() == (name@, info_view(info)));
                assert(build_spec(done2, d) == insert_full_spec(build_spec(done, d), name@, d,
                info_view(info)));
                assert(root.view_tree() == build_spec(done2, d));
                done = done2;
            }
        }
        proof {
            assert(orig.take(orig.len() as int) =~= orig);
            assert(done =~= entries_view(orig));
        }
        root
    }
}


} // verus!
