//! The accounting law of the module tree: every node's stored totals
//! agree with the tensors below it, so the root's parameter total is
//! the sum of all leaf element counts (capped at the integer limit,
//! as the stored totals are).

use vstd::prelude::*;

use crate::tree::{TreeV, TensorInfoV, empty_tree_v, insert_rec_spec, build_spec, scan_pos,
    joined};
use crate::model::split_chars;
use crate::util::{lex_lt, sat_add, sat_product};

verus! {

broadcast use vstd::std_specs::vec::group_vec_axioms, vstd::seq::group_seq_axioms;

/// The capped value the stored totals saturate at.
pub open spec fn cap(x: int) -> int {
    if x > u64::MAX {
        u64::MAX as int
    } else {
        x
    }
}

/// The parameters a node itself contributes: the element count of its
/// own tensor, if any.
pub open spec fn own_params(v: TreeV) -> int {
    match v.tensor {
        Some(i) => sat_product(i.shape) as int,
        None => 0,
    }
}

/// The tensors a node itself contributes.
pub open spec fn own_tensors(v: TreeV) -> int {
    match v.tensor {
        Some(_) => 1,
        None => 0,
    }
}

/// The sum of the stored parameter totals of a child list.
pub open spec fn children_params(cs: Seq<(Seq<char>, TreeV)>) -> int
    decreases cs.len(),
{
    if cs.len() == 0 {
        0
    } else {
        children_params(cs.drop_last()) + cs.last().1.params
    }
}

/// The sum of the stored tensor totals of a child list.
pub open spec fn children_tensors(cs: Seq<(Seq<char>, TreeV)>) -> int
    decreases cs.len(),
{
    if cs.len() == 0 {
        0
    } else {
        children_tensors(cs.drop_last()) + cs.last().1.tensors
    }
}

/// Count consistency: every node's stored totals are its own
/// contribution plus its children's stored totals, capped.
pub open spec fn counts_wf_v(v: TreeV) -> bool
    decreases v,
{
    &&& v.params == cap(own_params(v) + children_params(v.children))
    &&& v.tensors == cap(own_tensors(v) + children_tensors(v.children))
    &&& forall|i: int| 0 <= i < v.children.len() ==> counts_wf_v((#[trigger] v.children[i]).1)
}

/// The exact sum of leaf element counts below a node, itself included.
pub open spec fn leaf_params(v: TreeV) -> int
    decreases v, 1int,
{
    own_params(v) + leaf_params_children(v.children)
}

/// The exact sum of leaf element counts over a child list.
pub open spec fn leaf_params_children(cs: Seq<(Seq<char>, TreeV)>) -> int
    decreases cs, 0int,
{
    if cs.len() == 0 {
        0
    } else {
        leaf_params_children(cs.drop_last()) + leaf_params(cs.last().1)
    }
}

/// The exact count of tensor leaves below a node, itself included.
pub open spec fn leaf_tensors(v: TreeV) -> int
    decreases v, 1int,
{
    own_tensors(v) + leaf_tensors_children(v.children)
}

/// The exact count of tensor leaves over a child list.
pub open spec fn leaf_tensors_children(cs: Seq<(Seq<char>, TreeV)>) -> int
    decreases cs, 0int,
{
    if cs.len() == 0 {
        0
    } else {
        leaf_tensors_children(cs.drop_last()) + leaf_tensors(cs.last().1)
    }
}

/// Leaf sums are never negative.
pub proof fn lemma_leaf_sums_nonneg(v: TreeV)
    ensures
        leaf_params(v) >= 0,
        leaf_tensors(v) >= 0,
    decreases v, 1int,
{
    lemma_leaf_sums_children_nonneg(v.children);
}

/// Leaf sums over child lists are never negative.
pub proof fn lemma_leaf_sums_children_nonneg(cs: Seq<(Seq<char>, TreeV)>)
    ensures
        leaf_params_children(cs) >= 0,
        leaf_tensors_children(cs) >= 0,
    decreases cs, 0int,
{
    if cs.len() > 0 {
        lemma_leaf_sums_children_nonneg(cs.drop_last());
        lemma_leaf_sums_nonneg(cs.last().1);
    }
}

/// In a count-consistent tree, every stored total is the capped exact
/// leaf sum: summing all leaf element counts gives the root's
/// parameter total.
pub proof fn lemma_counts_are_leaf_sums(v: TreeV)
    requires
        counts_wf_v(v),
    ensures
        v.params == cap(leaf_params(v)),
        v.tensors == cap(leaf_tensors(v)),
    decreases v, 1int,
{
    lemma_counts_children(v.children);
    lemma_leaf_sums_children_nonneg(v.children);
}

/// Over a count-consistent child list, the stored totals sum to the
/// capped exact leaf sums.
pub proof fn lemma_counts_children(cs: Seq<(Seq<char>, TreeV)>)
    requires
        forall|i: int| 0 <= i < cs.len() ==> counts_wf_v((#[trigger] cs[i]).1),
    ensures
        cap(children_params(cs)) == cap(leaf_params_children(cs)),
        cap(children_tensors(cs)) == cap(leaf_tensors_children(cs)),
        children_params(cs) >= 0,
        children_tensors(cs) >= 0,
        children_params(cs) <= leaf_params_children(cs),
        children_tensors(cs) <= leaf_tensors_children(cs),
    decreases cs, 0int,
{
    if cs.len() > 0 {
        assert(forall|i: int|
            0 <= i < cs.drop_last().len() ==> counts_wf_v(
                (#[trigger] cs.drop_last()[i]).1,
            ));
        lemma_counts_children(cs.drop_last());
        assert(counts_wf_v(cs.last().1));
        lemma_counts_are_leaf_sums(cs.last().1);
        lemma_leaf_sums_nonneg(cs.last().1);
        lemma_leaf_sums_children_nonneg(cs.drop_last());
    }
}

/// Whether a tensor leaf already sits at the path `ss[at..]`, walking
/// exactly as insertion walks.
pub open spec fn has_leaf(v: TreeV, ss: Seq<Seq<char>>, at: int) -> bool
    decreases ss.len() - at,
{
    if at < 0 || at >= ss.len() {
        v.tensor is Some
    } else {
        let pos = scan_pos(v.children, ss[at]);
        if pos < v.children.len() && v.children[pos].0 == ss[at] {
            has_leaf(v.children[pos].1, ss, at + 1)
        } else {
            false
        }
    }
}

/// Raising one child's totals raises the child-list sums accordingly.
proof fn lemma_children_sums_update(cs: Seq<(Seq<char>, TreeV)>, pos: int, sub: TreeV)
    requires
        0 <= pos < cs.len(),
    ensures
        children_params(cs.update(pos, (cs[pos].0, sub))) == children_params(cs) - cs[
            pos].1.params + sub.params,
        children_tensors(cs.update(pos, (cs[pos].0, sub))) == children_tensors(cs) - cs[
            pos].1.tensors + sub.tensors,
    decreases cs.len(),
{
    let upd = cs.update(pos, (cs[pos].0, sub));
    if pos == cs.len() - 1 {
        assert(upd.drop_last() =~= cs.drop_last());
        assert(upd.last() == (cs[pos].0, sub));
    } else {
        assert(upd.drop_last() =~= cs.drop_last().update(pos, (cs[pos].0, sub)));
        assert(upd.last() == cs.last());
        lemma_children_sums_update(cs.drop_last(), pos, sub);
    }
}

/// Inserting a child adds its totals to the child-list sums.
proof fn lemma_children_sums_insert(
    cs: Seq<(Seq<char>, TreeV)>,
    pos: int,
    key: Seq<char>,
    sub: TreeV,
)
    requires
        0 <= pos <= cs.len(),
    ensures
        children_params(cs.insert(pos, (key, sub))) == children_params(cs) + sub.params,
        children_tensors(cs.insert(pos, (key, sub))) == children_tensors(cs) + sub.tensors,
    decreases cs.len(),
{
    let ins = cs.insert(pos, (key, sub));
    if pos == cs.len() {
        assert(ins.drop_last() =~= cs);
        assert(ins.last() == (key, sub));
    } else {
        assert(ins.drop_last() =~= cs.drop_last().insert(pos, (key, sub)));
        assert(ins.last() == cs.last());
        lemma_children_sums_insert(cs.drop_last(), pos, key, sub);
    }
}

/// Each child's stored totals are at most the child-list sums.
proof fn lemma_child_le_sums(cs: Seq<(Seq<char>, TreeV)>, pos: int)
    requires
        0 <= pos < cs.len(),
    ensures
        cs[pos].1.params <= children_params(cs),
        cs[pos].1.tensors <= children_tensors(cs),
        children_params(cs) >= 0,
        children_tensors(cs) >= 0,
    decreases cs.len(),
{
    if cs.len() > 0 {
        if pos == cs.len() - 1 {
            lemma_children_sums_nonneg(cs.drop_last());
        } else {
            lemma_child_le_sums(cs.drop_last(), pos);
        }
    }
}

/// Child-list sums are never negative.
proof fn lemma_children_sums_nonneg(cs: Seq<(Seq<char>, TreeV)>)
    ensures
        children_params(cs) >= 0,
        children_tensors(cs) >= 0,
    decreases cs.len(),
{
    if cs.len() > 0 {
        lemma_children_sums_nonneg(cs.drop_last());
    }
}

/// Inserting a tensor into a count-consistent tree along a path with
/// no tensor leaf yet keeps the tree count-consistent, and raises the
/// root totals by the tensor's element count and by one tensor,
/// capped.
pub proof fn lemma_insert_counts(
    t: TreeV,
    ss: Seq<Seq<char>>,
    at: int,
    d: char,
    info: TensorInfoV,
    p: u64,
)
    requires
        counts_wf_v(t),
        !has_leaf(t, ss, at),
        p == sat_product(info.shape),
    ensures
        counts_wf_v(insert_rec_spec(t, ss, at, d, info, p)),
        insert_rec_spec(t, ss, at, d, info, p).params == sat_add(t.params, p),
        insert_rec_spec(t, ss, at, d, info, p).tensors == sat_add(t.tensors, 1),
    decreases ss.len() - at,
{
    let r = insert_rec_spec(t, ss, at, d, info, p);
    lemma_children_sums_nonneg(t.children);
    if at < 0 || at >= ss.len() {
        assert(t.tensor is None);
        assert(own_params(t) == 0 && own_tensors(t) == 0);
        assert(own_params(r) == p && own_tensors(r) == 1);
        assert(r.children == t.children);
        assert(r.params == cap(t.params + p));
        assert(r.tensors == cap(t.tensors + 1));
        assert(counts_wf_v(r));
    } else {
        let key = ss[at];
        let pos = scan_pos(t.children, key);
        crate::tree::lemma_scan_pos_range(t.children, key);
        if pos < t.children.len() && t.children[pos].0 == key {
            let child = t.children[pos].1;
            assert(counts_wf_v(child));
            assert(!has_leaf(child, ss, at + 1));
            lemma_insert_counts(child, ss, at + 1, d, info, p);
            let sub = insert_rec_spec(child, ss, at + 1, d, info, p);
            lemma_children_sums_update(t.children, pos, sub);
            lemma_child_le_sums(t.children, pos);
            assert(r.children == t.children.update(pos, (t.children[pos].0, sub)));
            assert(own_params(r) == own_params(t) && own_tensors(r) == own_tensors(t));
            assert(sub.params == cap(child.params + p));
            assert(sub.tensors == cap(child.tensors + 1));
            assert(children_params(r.children) == children_params(t.children) - child.params
                + cap(child.params + p));
            assert(children_tensors(r.children) == children_tensors(t.children)
                - child.tensors + cap(child.tensors + 1));
            assert(own_params(t) >= 0 && own_tensors(t) >= 0);
            assert(r.params == cap(own_params(r) + children_params(r.children)));
            assert(r.tensors == cap(own_tensors(r) + children_tensors(r.children)));
            assert forall|i: int| 0 <= i < r.children.len() implies counts_wf_v(
                (#[trigger] r.children[i]).1,
            ) by {
                if i != pos {
                    assert(r.children[i] == t.children[i]);
                }
            }
        } else {
            let fresh = empty_tree_v(joined(ss.take(at + 1), d));
            assert(counts_wf_v(fresh)) by {
                assert(fresh.children.len() == 0);
            }
            assert(!has_leaf(fresh, ss, at + 1)) by {
                if at + 1 < ss.len() {
                    assert(scan_pos(fresh.children, ss[at + 1]) == 0);
                }
            }
            lemma_insert_counts(fresh, ss, at + 1, d, info, p);
            let sub = insert_rec_spec(fresh, ss, at + 1, d, info, p);
            lemma_children_sums_insert(t.children, pos, key, sub);
            assert(r.children == t.children.insert(pos, (key, sub)));
            assert(sub.params == sat_add(0, p) && sub.tensors == sat_add(0, 1));
            assert(own_params(r) == own_params(t) && own_tensors(r) == own_tensors(t));
            assert(children_params(r.children) == children_params(t.children) + p);
            assert(children_tensors(r.children) == children_tensors(t.children) + 1);
            assert(own_params(t) >= 0 && own_tensors(t) >= 0);
            assert(r.params == cap(own_params(r) + children_params(r.children)));
            assert(r.tensors == cap(own_tensors(r) + children_tensors(r.children)));
            assert forall|i: int| 0 <= i < r.children.len() implies counts_wf_v(
                (#[trigger] r.children[i]).1,
            ) by {
                if i < pos {
                    assert(r.children[i] == t.children[i]);
                } else if i == pos {
                    assert(r.children[i] == (key, sub));
                } else {
                    assert(r.children[i] == t.children[i - 1]);
                }
            }
        }
    }
}

/// The child a path step walks into, exactly as insertion finds it.
pub open spec fn lookup_child(cs: Seq<(Seq<char>, TreeV)>, key: Seq<char>) -> Option<TreeV> {
    let pos = scan_pos(cs, key);
    if pos < cs.len() && cs[pos].0 == key {
        Some(cs[pos].1)
    } else {
        None
    }
}

/// Scanning distributes over dropping the head entry.
proof fn lemma_lookup_unfold(cs: Seq<(Seq<char>, TreeV)>, key: Seq<char>)
    requires
        cs.len() > 0,
        lex_lt(cs[0].0, key),
    ensures
        lookup_child(cs, key) == lookup_child(cs.drop_first(), key),
{
    crate::tree::lemma_scan_pos_range(cs.drop_first(), key);
}

/// Inserting an entry at its scan position never changes what any
/// other key looks up.
proof fn lemma_lookup_insert_other(
    cs: Seq<(Seq<char>, TreeV)>,
    e: (Seq<char>, TreeV),
    key: Seq<char>,
)
    requires
        key != e.0,
    ensures
        lookup_child(cs.insert(scan_pos(cs, e.0), e), key) == lookup_child(cs, key),
    decreases cs.len(),
{
    crate::tree::lemma_scan_pos_range(cs, e.0);
    crate::tree::lemma_scan_pos_range(cs, key);
    let pos = scan_pos(cs, e.0);
    let cs2 = cs.insert(pos, e);
    cs.insert_ensures(pos, e);
    if cs.len() == 0 {
        assert(cs2 =~= seq![e]);
        if lex_lt(e.0, key) {
            assert(scan_pos(cs2, key) == 1 + scan_pos(cs2.drop_first(), key));
            assert(cs2.drop_first() =~= cs);
        } else {
            assert(scan_pos(cs2, key) == 0);
        }
    } else if lex_lt(cs[0].0, e.0) {
        // The head stays in place; recurse past it.
        crate::tree::lemma_scan_pos_range(cs.drop_first(), e.0);
        assert(pos == 1 + scan_pos(cs.drop_first(), e.0));
        assert(cs2[0] == cs[0]);
        assert forall|i: int| 0 <= i < cs2.drop_first().len() implies cs2.drop_first()[i]
            == cs.drop_first().insert(pos - 1, e)[i] by {
            cs.drop_first().insert_ensures(pos - 1, e);
            if i < pos - 1 {
            } else if i == pos - 1 {
                assert(cs2[pos] == e);
            } else {
                assert(cs2[i + 1] == cs[i]);
            }
        }
        assert(cs2.drop_first() =~= cs.drop_first().insert(pos - 1, e));
        lemma_lookup_insert_other(cs.drop_first(), e, key);
        if lex_lt(cs[0].0, key) {
            lemma_lookup_unfold(cs, key);
            lemma_lookup_unfold(cs2, key);
        } else {
            assert(scan_pos(cs, key) == 0);
            assert(scan_pos(cs2, key) == 0);
        }
    } else {
        // The entry lands in front of everything.
        assert(pos == 0);
        assert(cs2 =~= seq![e] + cs);
        assert(cs2[0] == e);
        assert(cs2.drop_first() =~= cs);
        if lex_lt(e.0, key) {
            assert(scan_pos(cs2, key) == 1 + scan_pos(cs, key));
        } else {
            // The scan stops at the fresh entry, whose key differs, so
            // the lookup misses; the old lookup missed as well, since
            // anything it could have found would order below the fresh
            // key and contradict the scan stopping at the head.
            assert(scan_pos(cs2, key) == 0);
            assert(lookup_child(cs2, key) is None);
            crate::util::lemma_lex_lt_total(e.0, key);
            assert(lex_lt(key, e.0));
            let q = scan_pos(cs, key);
            if q < cs.len() && cs[q].0 == key {
                if q == 0 {
                    assert(!lex_lt(cs[0].0, e.0));
                    assert(cs[0].0 == key);
                } else {
                    crate::flatten::lemma_scan_pos_props(cs, key);
                    assert(lex_lt(cs[0].0, key));
                    crate::util::lemma_lex_lt_trans(cs[0].0, key, e.0);
                }
                assert(false);
            }
        }
    }
}

/// Updating the entry at a key's own scan position never changes what
/// any other key looks up.
proof fn lemma_lookup_update_other(
    cs: Seq<(Seq<char>, TreeV)>,
    pos: int,
    sub: TreeV,
    key: Seq<char>,
)
    requires
        0 <= pos < cs.len(),
        cs[pos].0 != key,
    ensures
        lookup_child(cs.update(pos, (cs[pos].0, sub)), key) == lookup_child(cs, key),
    decreases cs.len(),
{
    let cs2 = cs.update(pos, (cs[pos].0, sub));
    assert(forall|i: int| 0 <= i < cs.len() ==> (#[trigger] cs2[i]).0 == cs[i].0);
    lemma_scan_same_keys(cs, cs2, key);
    crate::tree::lemma_scan_pos_range(cs, key);
    let q = scan_pos(cs, key);
    if q < cs.len() && cs[q].0 == key {
        assert(q != pos);
        assert(cs2[q] == cs[q]);
    }
}

/// Two child lists with the same keys scan identically.
proof fn lemma_scan_same_keys(
    a: Seq<(Seq<char>, TreeV)>,
    b: Seq<(Seq<char>, TreeV)>,
    key: Seq<char>,
)
    requires
        a.len() == b.len(),
        forall|i: int| 0 <= i < a.len() ==> (#[trigger] a[i]).0 == b[i].0,
    ensures
        scan_pos(a, key) == scan_pos(b, key),
    decreases a.len(),
{
    if a.len() > 0 {
        assert(a[0].0 == b[0].0);
        if lex_lt(a[0].0, key) {
            assert(forall|i: int|
                0 <= i < a.drop_first().len() ==> (#[trigger] a.drop_first()[i]).0
                    == b.drop_first()[i].0);
            lemma_scan_same_keys(a.drop_first(), b.drop_first(), key);
        }
    }
}


/// Path suffixes agree from `at` on, including in length.
pub open spec fn suffix_eq(qq: Seq<Seq<char>>, ss: Seq<Seq<char>>, at: int) -> bool {
    qq.len() == ss.len() && forall|j: int| at <= j < ss.len() ==> qq[j] == ss[j]
}

/// After inserting a tensor at the path `ss`, a tensor leaf sits at a
/// path exactly when that path is the inserted one or a leaf already
/// sat there.
pub proof fn lemma_insert_has_leaf(
    t: TreeV,
    ss: Seq<Seq<char>>,
    at: int,
    d: char,
    info: TensorInfoV,
    p: u64,
    qq: Seq<Seq<char>>,
)
    requires
        0 <= at <= ss.len(),
        at <= qq.len(),
    ensures
        has_leaf(insert_rec_spec(t, ss, at, d, info, p), qq, at) == (suffix_eq(qq, ss, at)
            || has_leaf(t, qq, at)),
    decreases ss.len() - at,
{
    let r = insert_rec_spec(t, ss, at, d, info, p);
    if at >= ss.len() {
        if at < qq.len() {
            assert(r.children == t.children);
            assert(!suffix_eq(qq, ss, at));
        } else {
            assert(at == qq.len() && at == ss.len());
            assert(r.tensor is Some);
            assert(suffix_eq(qq, ss, at));
        }
    } else {
        let key = ss[at];
        let pos = scan_pos(t.children, key);
        crate::tree::lemma_scan_pos_range(t.children, key);
        if at >= qq.len() {
            assert(qq.len() == at && at < ss.len());
            assert(r.tensor == t.tensor);
            assert(!suffix_eq(qq, ss, at));
        } else if qq[at] == key {
            if pos < t.children.len() && t.children[pos].0 == key {
                let child = t.children[pos].1;
                let sub = insert_rec_spec(child, ss, at + 1, d, info, p);
                assert(r.children == t.children.update(pos, (t.children[pos].0, sub)));
                lemma_scan_same_keys(t.children, r.children, key);
                assert(lookup_child(r.children, qq[at]) == Some(sub));
                lemma_insert_has_leaf(child, ss, at + 1, d, info, p, qq);
                assert(has_leaf(r, qq, at) == has_leaf(sub, qq, at + 1));
                assert(suffix_eq(qq, ss, at) == suffix_eq(qq, ss, at + 1));
            } else {
                let fresh = empty_tree_v(joined(ss.take(at + 1), d));
                let sub = insert_rec_spec(fresh, ss, at + 1, d, info, p);
                assert(r.children == t.children.insert(pos, (key, sub)));
                t.children.insert_ensures(pos, (key, sub));
                crate::flatten::lemma_scan_pos_props(t.children, key);
                assert(scan_pos(r.children, key) == pos) by {
                    crate::util::lemma_lex_lt_irrefl(key);
                    assert(forall|i: int|
                        0 <= i < pos ==> lex_lt((#[trigger] r.children[i]).0, key));
                    assert(r.children[pos].0 == key);
                    crate::tree::lemma_scan_pos_is(r.children, key, pos);
                }
                assert(lookup_child(r.children, qq[at]) == Some(sub));
                assert(has_leaf(r, qq, at) == has_leaf(sub, qq, at + 1));
                lemma_insert_has_leaf(fresh, ss, at + 1, d, info, p, qq);
                assert(!has_leaf(fresh, qq, at + 1)) by {
                    if at + 1 < qq.len() {
                        assert(scan_pos(fresh.children, qq[at + 1]) == 0);
                    }
                }
                assert(has_leaf(t, qq, at) == false);
                assert(suffix_eq(qq, ss, at) == suffix_eq(qq, ss, at + 1));
            }
        } else {
            // A different branch: the lookup is untouched.
            if pos < t.children.len() && t.children[pos].0 == key {
                let sub = insert_rec_spec(t.children[pos].1, ss, at + 1, d, info, p);
                assert(r.children == t.children.update(pos, (t.children[pos].0, sub)));
                lemma_lookup_update_other(t.children, pos, sub, qq[at]);
                assert(lookup_child(r.children, qq[at]) == lookup_child(t.children, qq[at]));
            } else {
                let fresh = empty_tree_v(joined(ss.take(at + 1), d));
                let sub = insert_rec_spec(fresh, ss, at + 1, d, info, p);
                assert(r.children == t.children.insert(pos, (key, sub)));
                lemma_lookup_insert_other(t.children, (key, sub), qq[at]);
                assert(lookup_child(r.children, qq[at]) == lookup_child(t.children, qq[at]));
            }
            assert(!suffix_eq(qq, ss, at));
            crate::tree::lemma_scan_pos_range(t.children, qq[at]);
            let found = lookup_child(t.children, qq[at]);
            crate::tree::lemma_scan_pos_range(r.children, qq[at]);
            if found is Some {
                assert(has_leaf(r, qq, at) == has_leaf(found->0, qq, at + 1));
                assert(has_leaf(t, qq, at) == has_leaf(found->0, qq, at + 1));
            } else {
                assert(!has_leaf(r, qq, at));
                assert(!has_leaf(t, qq, at));
            }
        }
    }
}

/// Joining a name's segments with the delimiter gives the name back:
/// splitting never conflates two different names.
pub proof fn lemma_joined_split(s: Seq<char>, d: char)
    ensures
        joined(split_chars(s, d), d) == s,
    decreases s.len(),
{
    crate::model::lemma_split_chars_len(s, d);
    if s.len() == 0 {
        assert(split_chars(s, d) =~= seq![Seq::<char>::empty()]);
        assert(joined(split_chars(s, d), d) =~= s);
    } else if s.last() == d {
        lemma_joined_split(s.drop_last(), d);
        let x = split_chars(s.drop_last(), d);
        assert(split_chars(s, d) == x.push(Seq::<char>::empty()));
        assert(x.push(Seq::<char>::empty()).drop_last() =~= x);
        assert(x.push(Seq::<char>::empty()).last() =~= Seq::<char>::empty());
        assert(joined(split_chars(s, d), d) =~= joined(x, d) + seq![d]
            + Seq::<char>::empty());
        assert(joined(x, d) + seq![d] + Seq::<char>::empty() =~= s.drop_last().push(d));
        assert(s.drop_last().push(d) =~= s);
    } else {
        lemma_joined_split(s.drop_last(), d);
        let x = split_chars(s.drop_last(), d);
        crate::model::lemma_split_chars_len(s.drop_last(), d);
        let upd = x.update(x.len() - 1, x.last().push(s.last()));
        assert(split_chars(s, d) == upd);
        if x.len() == 1 {
            assert(joined(x, d) == x[0]);
            assert(joined(upd, d) == upd[0]);
            assert(upd[0] == x[0].push(s.last()));
            assert(joined(upd, d) =~= s.drop_last().push(s.last()));
            assert(s.drop_last().push(s.last()) =~= s);
        } else {
            assert(upd.drop_last() =~= x.drop_last());
            assert(upd.last() == x.last().push(s.last()));
            assert(joined(upd, d) == joined(x.drop_last(), d) + seq![d] + x.last().push(
                s.last(),
            ));
            assert(joined(x, d) == joined(x.drop_last(), d) + seq![d] + x.last());
            assert(joined(upd, d) =~= (joined(x.drop_last(), d) + seq![d] + x.last()).push(
                s.last(),
            ));
            assert((joined(x.drop_last(), d) + seq![d] + x.last()).push(s.last()) =~= s
                .drop_last().push(s.last()));
            assert(s.drop_last().push(s.last()) =~= s);
        }
    }
}

/// No tensor leaf sits anywhere in an empty root.
proof fn lemma_empty_no_leaf(qq: Seq<Seq<char>>)
    ensures
        !has_leaf(empty_tree_v(Seq::empty()), qq, 0),
{
    let t = empty_tree_v(Seq::empty());
    if qq.len() > 0 {
        assert(scan_pos(t.children, qq[0]) == 0);
    }
}

/// Building a directory of pairwise distinct names yields a
/// count-consistent tree: with `lemma_counts_are_leaf_sums`, the
/// root's totals are the capped sums over every tensor of the
/// directory.
pub proof fn lemma_build_counts_distinct(entries: Seq<(Seq<char>, TensorInfoV)>, d: char)
    requires
        forall|i: int, j: int|
            0 <= i < j < entries.len() ==> (#[trigger] entries[i]).0 != (#[trigger] entries[
                j]).0,
    ensures
        counts_wf_v(build_spec(entries, d)),
    decreases entries.len(),
{
    if entries.len() == 0 {
        assert(counts_wf_v(empty_tree_v(Seq::empty())));
    } else {
        let prev = entries.drop_last();
        let name = entries.last().0;
        lemma_build_counts_distinct(prev, d);
        // No leaf can sit at this name's path yet: a leaf would trace
        // back through the earlier insertions to an earlier equal name.
        assert(!has_leaf(build_spec(prev, d), split_chars(name, d), 0)) by {
            lemma_no_leaf_at_new_path(prev, d, name);
        }
        lemma_insert_counts(
            build_spec(prev, d),
            split_chars(name, d),
            0,
            d,
            entries.last().1,
            sat_product(entries.last().1.shape),
        );
    }
}

/// A name that matches none of the built entries has no leaf at its
/// split path.
proof fn lemma_no_leaf_at_new_path(
    entries: Seq<(Seq<char>, TensorInfoV)>,
    d: char,
    name: Seq<char>,
)
    requires
        forall|i: int| 0 <= i < entries.len() ==> (#[trigger] entries[i]).0 != name,
    ensures
        !has_leaf(build_spec(entries, d), split_chars(name, d), 0),
    decreases entries.len(),
{
    if entries.len() == 0 {
        lemma_empty_no_leaf(split_chars(name, d));
    } else {
        let prev = entries.drop_last();
        assert(forall|i: int| 0 <= i < prev.len() ==> (#[trigger] prev[i]).0 != name);
        lemma_no_leaf_at_new_path(prev, d, name);
        lemma_insert_has_leaf(
            build_spec(prev, d),
            split_chars(entries.last().0, d),
            0,
            d,
            entries.last().1,
            sat_product(entries.last().1.shape),
            split_chars(name, d),
        );
        if suffix_eq(split_chars(name, d), split_chars(entries.last().0, d), 0) {
            assert(split_chars(name, d) =~= split_chars(entries.last().0, d));
            lemma_joined_split(name, d);
            lemma_joined_split(entries.last().0, d);
            assert(name == entries.last().0);
            assert(false);
        }
    }
}


/// The accounting law of `module()`: over a directory of pairwise
/// distinct tensor names, the built tree's root totals are exactly the
/// sums over every tensor — the parameter total is the sum of all leaf
/// element counts, and the tensor total is the number of leaves, both
/// capped as the stored totals are.
pub proof fn lemma_module_totals(entries: Seq<(Seq<char>, TensorInfoV)>, d: char)
    requires
        forall|i: int, j: int|
            0 <= i < j < entries.len() ==> (#[trigger] entries[i]).0 != (#[trigger] entries[
                j]).0,
    ensures
        ({
            let t = build_spec(entries, d);
            &&& t.params == cap(leaf_params(t))
            &&& t.tensors == cap(leaf_tensors(t))
        }),
{
    lemma_build_counts_distinct(entries, d);
    lemma_counts_are_leaf_sums(build_spec(entries, d));
}

} // verus!
