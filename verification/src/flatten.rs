//! Single-child flattening of the module tree: chains of childless
//! intermediate nodes are collapsed into one node keyed by the joined
//! path, and the idempotence of that transform is proved.

use vstd::prelude::*;

use crate::model::{Key, TensorInfo};
use crate::tree::{ModuleInfo, TreeV, children_view, empty_tree_v, info_view, scan_pos};
use crate::util::lex_lt;

verus! {

broadcast use vstd::std_specs::vec::group_vec_axioms, vstd::seq::group_seq_axioms;

/// A tensor leaf: a node carrying a descriptor and no children.
pub open spec fn is_tensor_leaf_v(v: TreeV) -> bool {
    v.tensor is Some && v.children.len() == 0
}

/// A node that flattening collapses into its single child: it carries
/// no descriptor, has exactly one child, and that child is not itself
/// a tensor leaf.
pub open spec fn mergeable_v(v: TreeV) -> bool {
    v.tensor is None && v.children.len() == 1 && !is_tensor_leaf_v(v.children[0].1)
}

/// One flattened child entry: a collapsible node is replaced by its
/// child under the joined key.
pub open spec fn merge_entry_v(k: Seq<char>, v: TreeV, d: char) -> (Seq<char>, TreeV) {
    if mergeable_v(v) {
        (k + seq![d] + v.children[0].0, v.children[0].1)
    } else {
        (k, v)
    }
}

/// One entry placed into an ordered child list: replacing an equal key,
/// inserted in order otherwise.
pub open spec fn insert_entry_v(cs: Seq<(Seq<char>, TreeV)>, e: (Seq<char>, TreeV)) -> Seq<
    (Seq<char>, TreeV),
> {
    let pos = scan_pos(cs, e.0);
    if pos < cs.len() && cs[pos].0 == e.0 {
        cs.update(pos, e)
    } else {
        cs.insert(pos, e)
    }
}

/// The entries placed one by one, in order, into an empty list.
pub open spec fn reinsert_all(es: Seq<(Seq<char>, TreeV)>) -> Seq<(Seq<char>, TreeV)>
    decreases es.len(),
{
    if es.len() == 0 {
        Seq::empty()
    } else {
        insert_entry_v(reinsert_all(es.drop_last()), es.last())
    }
}

/// The flattened forms of a node's child entries, before reordering.
pub open spec fn mapped_children(cs: Seq<(Seq<char>, TreeV)>, d: char) -> Seq<(Seq<char>, TreeV)>
    decreases cs,
{
    Seq::new(
        cs.len(),
        |i: int|
            if 0 <= i < cs.len() {
                merge_entry_v(cs[i].0, flatten_spec(cs[i].1, d), d)
            } else {
                (Seq::empty(), empty_tree_v(Seq::empty()))
            },
    )
}

/// The single-child flattening of a tree: every subtree is flattened,
/// collapsible children are merged with their single child under the
/// joined key, and the entries are re-ordered by key.
pub open spec fn flatten_spec(t: TreeV, d: char) -> TreeV
    decreases t,
{
    TreeV { children: reinsert_all(mapped_children(t.children, d)), ..t }
}

/// Children strictly ordered by key text.
pub open spec fn sorted_unique(cs: Seq<(Seq<char>, TreeV)>) -> bool {
    forall|i: int, j: int|
        0 <= i < j < cs.len() ==> lex_lt((#[trigger] cs[i]).0, (#[trigger] cs[j]).0)
}

/// A tree that flattening leaves unchanged: children ordered, none of
/// them collapsible, all of them stable themselves.
pub open spec fn stable_v(v: TreeV) -> bool
    decreases v,
{
    &&& sorted_unique(v.children)
    &&& forall|i: int|
        0 <= i < v.children.len() ==> !mergeable_v((#[trigger] v.children[i]).1)
            && stable_v(v.children[i].1)
}

/// Everything before the scan position orders below the key; the entry
/// at the scan position, if any, does not.
pub proof fn lemma_scan_pos_props(cs: Seq<(Seq<char>, TreeV)>, key: Seq<char>)
    ensures
        0 <= scan_pos(cs, key) <= cs.len(),
        forall|i: int| 0 <= i < scan_pos(cs, key) ==> lex_lt((#[trigger] cs[i]).0, key),
        scan_pos(cs, key) < cs.len() ==> !lex_lt(cs[scan_pos(cs, key)].0, key),
    decreases cs.len(),
{
    if cs.len() > 0 && lex_lt(cs[0].0, key) {
        lemma_scan_pos_props(cs.drop_first(), key);
        assert(forall|i: int|
            1 <= i < scan_pos(cs, key) ==> (#[trigger] cs[i]).0 == cs.drop_first()[i - 1].0);
    }
}

/// Ordered insertion keeps the child list ordered.
pub proof fn lemma_insert_entry_sorted(cs: Seq<(Seq<char>, TreeV)>, e: (Seq<char>, TreeV))
    requires
        sorted_unique(cs),
    ensures
        sorted_unique(insert_entry_v(cs, e)),
{
    let pos = scan_pos(cs, e.0);
    lemma_scan_pos_props(cs, e.0);
    let r = insert_entry_v(cs, e);
    if pos < cs.len() && cs[pos].0 == e.0 {
        assert forall|i: int, j: int| 0 <= i < j < r.len() implies lex_lt(
            (#[trigger] r[i]).0,
            (#[trigger] r[j]).0,
        ) by {
            assert(r[i].0 == cs[i].0);
            assert(r[j].0 == cs[j].0);
        }
    } else {
        if pos < cs.len() {
            crate::util::lemma_lex_lt_total(e.0, cs[pos].0);
            assert(lex_lt(e.0, cs[pos].0));
        }
        assert forall|i: int, j: int| 0 <= i < j < r.len() implies lex_lt(
            (#[trigger] r[i]).0,
            (#[trigger] r[j]).0,
        ) by {
            if j < pos {
                assert(r[i].0 == cs[i].0 && r[j].0 == cs[j].0);
            } else if j == pos {
                assert(r[i].0 == cs[i].0 && r[j].0 == e.0);
            } else if i == pos {
                assert(r[i].0 == e.0 && r[j].0 == cs[j - 1].0);
                if j - 1 > pos {
                    crate::util::lemma_lex_lt_trans(e.0, cs[pos].0, cs[j - 1].0);
                }
            } else if i < pos {
                assert(r[i].0 == cs[i].0 && r[j].0 == cs[j - 1].0);
                if j - 1 == i {
                    assert(false);
                }
            } else {
                assert(r[i].0 == cs[i - 1].0 && r[j].0 == cs[j - 1].0);
            }
        }
    }
}

/// Reinserting all entries yields an ordered child list.
pub proof fn lemma_reinsert_all_sorted(es: Seq<(Seq<char>, TreeV)>)
    ensures
        sorted_unique(reinsert_all(es)),
    decreases es.len(),
{
    if es.len() > 0 {
        lemma_reinsert_all_sorted(es.drop_last());
        lemma_insert_entry_sorted(reinsert_all(es.drop_last()), es.last());
    }
}

/// Every reinserted entry was among the given entries.
pub proof fn lemma_reinsert_all_membership(es: Seq<(Seq<char>, TreeV)>, k: int)
    requires
        0 <= k < reinsert_all(es).len(),
    ensures
        exists|j: int| 0 <= j < es.len() && reinsert_all(es)[k] == es[j],
    decreases es.len(),
{
    if es.len() > 0 {
        let prev = reinsert_all(es.drop_last());
        let e = es.last();
        let pos = scan_pos(prev, e.0);
        lemma_scan_pos_props(prev, e.0);
        let r = reinsert_all(es);
        if pos < prev.len() && prev[pos].0 == e.0 {
            if k == pos {
                assert(r[k] == e && e == es[es.len() - 1]);
            } else {
                assert(r[k] == prev[k]);
                lemma_reinsert_all_membership(es.drop_last(), k);
                let j = choose|j: int| 0 <= j < es.drop_last().len() && prev[k]
                    == es.drop_last()[j];
                assert(es.drop_last()[j] == es[j]);
            }
        } else {
            if k == pos {
                assert(r[k] == e && e == es[es.len() - 1]);
            } else {
                let k0 = if k < pos {
                    k
                } else {
                    k - 1
                };
                assert(r[k] == prev[k0]);
                lemma_reinsert_all_membership(es.drop_last(), k0);
                let j = choose|j: int| 0 <= j < es.drop_last().len() && prev[k0]
                    == es.drop_last()[j];
                assert(es.drop_last()[j] == es[j]);
            }
        }
    }
}

/// Flattening leaves a stable tree: ordered children, none collapsible.
pub proof fn lemma_flatten_stable(v: TreeV, d: char)
    ensures
        stable_v(flatten_spec(v, d)),
    decreases v,
{
    let mapped = mapped_children(v.children, d);
    let r = flatten_spec(v, d);
    lemma_reinsert_all_sorted(mapped);
    assert forall|i: int| 0 <= i < r.children.len() implies !mergeable_v(
        (#[trigger] r.children[i]).1,
    ) && stable_v(r.children[i].1) by {
        lemma_reinsert_all_membership(mapped, i);
        let j = choose|j: int| 0 <= j < mapped.len() && r.children[i] == mapped[j];
        let sub = flatten_spec(v.children[j].1, d);
        lemma_flatten_stable(v.children[j].1, d);
        if mergeable_v(sub) {
            assert(r.children[i].1 == sub.children[0].1);
            assert(stable_v(sub));
            assert(!mergeable_v(sub.children[0].1) && stable_v(sub.children[0].1));
        } else {
            assert(r.children[i].1 == sub);
        }
    }
}

/// Reinserting an already ordered child list gives it back unchanged.
pub proof fn lemma_reinsert_all_id(cs: Seq<(Seq<char>, TreeV)>)
    requires
        sorted_unique(cs),
    ensures
        reinsert_all(cs) == cs,
    decreases cs.len(),
{
    if cs.len() == 0 {
        assert(reinsert_all(cs) =~= cs);
    } else {
        assert(sorted_unique(cs.drop_last())) by {
            assert(forall|i: int, j: int|
                0 <= i < j < cs.drop_last().len() ==> (#[trigger] cs.drop_last()[i]).0
                    == cs[i].0 && (#[trigger] cs.drop_last()[j]).0 == cs[j].0);
        }
        lemma_reinsert_all_id(cs.drop_last());
        let prev = cs.drop_last();
        let e = cs.last();
        assert(forall|i: int| 0 <= i < prev.len() ==> lex_lt((#[trigger] prev[i]).0, e.0));
        lemma_scan_pos_is_v(prev, e.0, prev.len() as int);
        assert(insert_entry_v(prev, e) == prev.insert(prev.len() as int, e));
        assert(prev.insert(prev.len() as int, e) =~= cs);
    }
}

/// `lemma_scan_pos_is`, restated for entry lists.
pub proof fn lemma_scan_pos_is_v(cs: Seq<(Seq<char>, TreeV)>, key: Seq<char>, pos: int)
    requires
        0 <= pos <= cs.len(),
        forall|i: int| 0 <= i < pos ==> lex_lt((#[trigger] cs[i]).0, key),
        pos < cs.len() ==> !lex_lt(cs[pos].0, key),
    ensures
        scan_pos(cs, key) == pos,
    decreases pos,
{
    if cs.len() == 0 {
    } else if pos == 0 {
    } else {
        assert(lex_lt(cs[0].0, key));
        lemma_scan_pos_is_v(cs.drop_first(), key, pos - 1);
    }
}

/// Flattening a stable tree changes nothing.
pub proof fn lemma_flatten_stable_id(v: TreeV, d: char)
    requires
        stable_v(v),
    ensures
        flatten_spec(v, d) == v,
    decreases v,
{
    let mapped = mapped_children(v.children, d);
    assert forall|i: int| 0 <= i < v.children.len() implies mapped[i] == #[trigger] v.children[i] by {
        lemma_flatten_stable_id(v.children[i].1, d);
        assert(!mergeable_v(v.children[i].1));
    }
    assert(mapped =~= v.children);
    lemma_reinsert_all_id(v.children);
    assert(flatten_spec(v, d) == TreeV { children: v.children, ..v });
    assert(TreeV { children: v.children, ..v } == v);
}

/// Flattening is idempotent: flattening an already flattened tree
/// yields the identical tree.
pub proof fn lemma_flatten_idempotent(v: TreeV, d: char)
    ensures
        flatten_spec(flatten_spec(v, d), d) == flatten_spec(v, d),
{
    lemma_flatten_stable(v, d);
    lemma_flatten_stable_id(flatten_spec(v, d), d);
}


/// Clones a descriptor slot, preserving its mathematical view.
fn clone_info_opt(o: &Option<TensorInfo>) -> (r: Option<TensorInfo>)
    ensures
        (r is Some) == (*o is Some),
        *o matches Some(i) ==> (r matches Some(j) && info_view(j) == info_view(i)),
{
    match o {
        None => None,
        Some(i) => Some(i.clone()),
    }
}

impl ModuleInfo {
    /// Rebuilds this subtree with every chain of single, non-leaf
    /// children collapsed into one node keyed by the joined path.
    #[verifier::rlimit(100)]
    fn flatten_rec(t: &ModuleInfo, Ghost(d): Ghost<char>, Ghost(is_root): Ghost<bool>) -> (r:
        ModuleInfo)
        requires
            t.keys_wf(d, is_root),
        ensures
            r.view_tree() == flatten_spec(t.view_tree(), d),
            r.keys_wf(d, is_root),
            r.full_name == t.full_name,
        decreases *t,
    {
        let ghost tv = t.view_tree();
        let ghost mapped = mapped_children(tv.children, d);
        let n = t.children.len();
        let mut out: Vec<(Key, ModuleInfo)> = Vec::new();
        let mut i: usize = 0;
        while i < n
            invariant
                0 <= i <= n,
                n == t.children@.len(),
                t.keys_wf(d, is_root),
                tv == t.view_tree(),
                mapped == mapped_children(tv.children, d),
                children_view(out@) == reinsert_all(mapped.take(i as int)),
                forall|a: int, b: int|
                    0 <= a < b < out@.len() ==> lex_lt(
                        (#[trigger] out@[a]).0.text(),
                        (#[trigger] out@[b]).0.text(),
                    ),
                forall|a: int|
                    0 <= a < out@.len() ==> {
                        let ck = (#[trigger] out@[a]).0;
                        let cv = out@[a].1;
                        &&& ck.wf()
                        &&& ck.full@ == cv.full_name.full@
                        &&& ck.end == cv.full_name.end
                        &&& ck.start == if is_root {
                            0int
                        } else {
                            t.full_name.end + 1
                        }
                        &&& (!is_root ==> ck.full@.subrange(0, t.full_name.end as int)
                            == t.full_name.text() && ck.full@[t.full_name.end as int] == d)
                        &&& cv.keys_wf(d, false)
                    },
            decreases n - i,
        {
            proof {
                assert(t.children@[i as int].0.wf());
                assert(mapped.take(i + 1).drop_last() =~= mapped.take(i as int));
            }
            let k = &t.children[i].0;
            let v2 = Self::flatten_rec(&t.children[i].1, Ghost(d), Ghost(false));
            let ghost v2v = v2.view_tree();
            let leafless = v2.children.len() == 1 && !(v2.children[0].1.tensor_info.is_some()
                && v2.children[0].1.children.len() == 0);
            let do_merge = v2.tensor_info.is_none() && leafless;
            proof {
                assert(v2v.children.len() == v2.children@.len());
                assert((v2v.tensor is None) == v2.tensor_info.is_none());
                if v2.children@.len() == 1 {
                    assert(v2v.children[0] == (v2.children@[0].0.text(),
                    v2.children@[0].1.view_tree()));
                    assert((v2v.children[0].1.tensor is Some)
                        == v2.children@[0].1.tensor_info.is_some());
                    assert(v2v.children[0].1.children.len()
                        == v2.children@[0].1.children@.len());
                }
                assert(do_merge == mergeable_v(v2v));
            }
            let entry: (Key, ModuleInfo) = if do_merge {
                let mut v2 = v2;
                let (ck, cv) = v2.children.remove(0);
                let ghost ckg = ck;
                proof {
                    assert(ck.wf());
                    assert(ck.start == v2.full_name.end + 1);
                    assert(ck.full@.subrange(0, v2.full_name.end as int)
                        == v2.full_name.text());
                    assert(v2.full_name.end == k.end);
                    assert(v2.full_name.full@ == k.full@);
                    assert forall|x: int| 0 <= x < k.end implies ckg.full@[x]
                        == k.full@[x] by {
                        assert(ckg.full@.subrange(0, v2.full_name.end as int)[x]
                            == v2.full_name.text()[x]);
                        assert(v2.full_name.text()[x] == v2.full_name.full@[x]);
                    }
                    assert(ck.full@.subrange(0, k.end as int) =~= k.full@.subrange(
                        0,
                        k.end as int,
                    ));
                }
                let jk = k.join(ck);
                proof {
                    assert(jk.full@ == ckg.full@);
                    assert(jk.text() =~= k.text() + seq![d] + v2v.children[0].0);
                    assert((jk.text(), cv.view_tree()) == merge_entry_v(
                        k.text(),
                        v2v,
                        d,
                    ));
                    // The joined key continues this node's path exactly
                    // as the child's own entry key did.
                    assert(jk.full@ == cv.full_name.full@);
                    assert(jk.end == cv.full_name.end);
                    assert(jk.start == if is_root { 0int } else { t.full_name.end + 1 });
                    if !is_root {
                        assert(t.full_name.end < k.end);
                        assert(jk.full@.subrange(0, t.full_name.end as int)
                            =~= k.full@.subrange(0, t.full_name.end as int));
                        assert(jk.full@.subrange(0, t.full_name.end as int)
                            == t.full_name.text());
                        assert(jk.full@[t.full_name.end as int] == d);
                    }
                    assert(cv.keys_wf(d, false));
                }
                (jk, cv)
            } else {
                (k.clone(), v2)
            };
            proof {
                assert((entry.0.text(), entry.1.view_tree()) == mapped[i as int]);
                assert(entry.0.wf());
                assert(entry.0.full@ == entry.1.full_name.full@);
                assert(entry.0.end == entry.1.full_name.end);
                assert(entry.0.start == if is_root { 0int } else { t.full_name.end + 1 });
                if !is_root {
                    assert(entry.0.full@.subrange(0, t.full_name.end as int)
                        == t.full_name.text());
                    assert(entry.0.full@[t.full_name.end as int] == d);
                }
                assert(entry.1.keys_wf(d, false));
            }
            // Place the entry into the ordered output list.
            let m = out.len();
            let mut pos: usize = 0;
            loop
                invariant
                    0 <= pos <= m,
                    m == out@.len(),
                    entry.0.wf(),
                    forall|a: int|
                        0 <= a < out@.len() ==> (#[trigger] out@[a]).0.wf(),
                    forall|a: int|
                        0 <= a < pos ==> lex_lt((#[trigger] out@[a]).0.text(), entry.0.text()),
                ensures
                    0 <= pos <= m,
                    pos == scan_pos(children_view(out@), entry.0.text()),
                    pos < m ==> !lex_lt(out@[pos as int].0.text(), entry.0.text()),
                    forall|a: int|
                        0 <= a < pos ==> lex_lt((#[trigger] out@[a]).0.text(), entry.0.text()),
                decreases m - pos,
            {
                if pos >= m {
                    proof {
                        lemma_scan_pos_is_v(children_view(out@), entry.0.text(), pos as int);
                    }
                    break;
                }
                let below = out[pos].0.text_lt(&entry.0);
                if !below {
                    proof {
                        lemma_scan_pos_is_v(children_view(out@), entry.0.text(), pos as int);
                    }
                    break;
                }
                pos += 1;
            }
            let ghost outv0 = children_view(out@);
            let ghost eout = out@;
            let same = if pos < m {
                out[pos].0.text_equals(&entry.0)
            } else {
                false
            };
            let ghost ev = (entry.0.text(), entry.1.view_tree());
            let ghost ekey = entry.0;
            let ghost enode = entry.1;
            if same {
                out.set(pos, entry);
                proof {
                    assert(out@ =~= eout.update(pos as int, (ekey, enode)));
                    assert(children_view(out@) =~= outv0.update(pos as int, ev));
                    assert(children_view(out@) =~= insert_entry_v(outv0, ev));
                }
            } else {
                out.insert(pos, entry);
                proof {
                    assert(out@ =~= eout.insert(pos as int, (ekey, enode)));
                    assert(children_view(out@) =~= outv0.insert(pos as int, ev));
                    assert(children_view(out@) =~= insert_entry_v(outv0, ev));
                }
            }
            proof {
                assert(children_view(out@) == insert_entry_v(
                    reinsert_all(mapped.take(i as int)),
                    mapped[i as int],
                ));
                assert(mapped.take(i + 1).last() == mapped[i as int]);
                assert(children_view(out@) == reinsert_all(mapped.take(i + 1)));
                // Order of the updated list.
                if !same && pos < m {
                    crate::util::lemma_lex_lt_total(ekey.text(), eout[pos as int].0.text());
                    assert(lex_lt(ekey.text(), eout[pos as int].0.text()));
                }
                assert forall|a: int, b: int| 0 <= a < b < out@.len() implies lex_lt(
                    (#[trigger] out@[a]).0.text(),
                    (#[trigger] out@[b]).0.text(),
                ) by {
                    if same {
                        assert(out@[a].0 == if a == pos {
                            ekey
                        } else {
                            eout[a].0
                        });
                        assert(out@[b].0 == if b == pos {
                            ekey
                        } else {
                            eout[b].0
                        });
                        assert(ekey.text() == eout[pos as int].0.text());
                    } else {
                        if b < pos {
                            assert(out@[a].0 == eout[a].0 && out@[b].0 == eout[b].0);
                        } else if b == pos {
                            assert(out@[a].0 == eout[a].0 && out@[b].0 == ekey);
                        } else if a == pos {
                            assert(out@[a].0 == ekey && out@[b].0 == eout[b - 1].0);
                            if b - 1 > pos {
                                crate::util::lemma_lex_lt_trans(
                                    ekey.text(),
                                    eout[pos as int].0.text(),
                                    eout[b - 1].0.text(),
                                );
                            }
                        } else if a < pos {
                            assert(out@[a].0 == eout[a].0 && out@[b].0 == eout[b - 1].0);
                            if b - 1 == a {
                                assert(false);
                            }
                        } else {
                            assert(out@[a].0 == eout[a - 1].0 && out@[b].0 == eout[b - 1].0);
                        }
                    }
                }
                // Key well-formedness of the updated list.
                assert forall|a: int| 0 <= a < out@.len() implies {
                    let ck2 = (#[trigger] out@[a]).0;
                    let cv2x = out@[a].1;
                    &&& ck2.wf()
                    &&& ck2.full@ == cv2x.full_name.full@
                    &&& ck2.end == cv2x.full_name.end
                    &&& ck2.start == if is_root {
                        0int
                    } else {
                        t.full_name.end + 1
                    }
                    &&& (!is_root ==> ck2.full@.subrange(0, t.full_name.end as int)
                        == t.full_name.text() && ck2.full@[t.full_name.end as int] == d)
                    &&& cv2x.keys_wf(d, false)
                } by {
                    if same {
                        if a != pos {
                            assert(out@[a] == eout[a]);
                        } else {
                            assert(out@[a] == (ekey, enode));
                        }
                    } else {
                        if a == pos {
                            assert(out@[a] == (ekey, enode));
                        } else if a < pos {
                            assert(out@[a] == eout[a]);
                        } else {
                            assert(out@[a] == eout[a - 1]);
                        }
                    }
                }
            }
            i += 1;
        }
        let r = ModuleInfo {
            full_name: t.full_name.clone(),
            tensor_info: clone_info_opt(&t.tensor_info),
            children: out,
            total_tensors: t.total_tensors,
            total_params: t.total_params,
        };
        proof {
            assert(mapped.take(n as int) =~= mapped);
            assert(r.view_tree().children =~= children_view(r.children@));
            assert(r.view_tree().tensor == flatten_spec(tv, d).tensor);
            assert(r.view_tree() == flatten_spec(tv, d));
            assert(r.keys_wf(d, is_root));
        }
        r
    }

    /// Collapses every chain of single, non-leaf children in place.
    /// The tree must carry keys laid out by `build_from_tensors` for
    /// some delimiter; the result is the flattening for that delimiter.
    pub fn flatten_single_children(&mut self)
        requires
            exists|dd: char| old(self).keys_wf(dd, true),
        ensures
            exists|dd: char|
                {
                    &&& #[trigger] old(self).keys_wf(dd, true)
                    &&& final(self).view_tree() == flatten_spec(old(self).view_tree(), dd)
                    &&& final(self).keys_wf(dd, true)
                },
            final(self).full_name == old(self).full_name,
    {
        let ghost dd = choose|dd: char| old(self).keys_wf(dd, true);
        let r = Self::flatten_rec(self, Ghost(dd), Ghost(true));
        *self = r;
    }
}

} // verus!
