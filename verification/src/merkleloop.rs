//! The Merkle-loop step verifier: an ordered run of transitions is
//! Merkleized bottom-up, every transition carries an authentication
//! path to the common root, and consecutive transitions chain through
//! shared state commitments.
//!
//! `ml_holds_of` is the exact satisfaction relation of one loop shard:
//! a shard circuit over these inputs is satisfiable exactly when the
//! relation holds.

use vstd::prelude::*;

use crate::bucket::is_pow2;
use crate::field::{compress_of, params_wf, Fe, HashParams};

verus! {

/// The root recomputed from a leaf along an authentication path: at
/// each level the running hash is combined with the next sibling, on
/// the side the selector picks (a set selector keeps it on the left).
pub open spec fn path_root_of(params: HashParams, acc: Fe, sibs: Seq<Fe>, sels: Seq<bool>) -> Fe
    decreases sibs.len(),
{
    if sibs.len() == 0 {
        acc
    } else {
        let next = if sels[0] {
            compress_of(params, acc, sibs[0])
        } else {
            compress_of(params, sibs[0], acc)
        };
        path_root_of(params, next, sibs.skip(1), sels.skip(1))
    }
}

/// One level of the Merkle tree: each output is the compression of one
/// adjacent pair.
pub open spec fn level_up_of(params: HashParams, l: Seq<Fe>) -> Seq<Fe> {
    Seq::new(l.len() / 2, |i: int| compress_of(params, l[2 * i], l[2 * i + 1]))
}

/// All levels of the tree, bottom level first, root level last.
pub open spec fn levels_of(params: HashParams, l: Seq<Fe>) -> Seq<Seq<Fe>>
    decreases l.len(),
{
    if l.len() <= 1 {
        seq![l]
    } else {
        seq![l] + levels_of(params, level_up_of(params, l))
    }
}

/// The sibling hashes and side selectors of the authentication path
/// from position `idx` of the bottom level to the root.
pub open spec fn path_of(levels: Seq<Seq<Fe>>, idx: int) -> (Seq<Fe>, Seq<bool>)
    decreases levels.len(),
{
    if levels.len() <= 1 {
        (Seq::empty(), Seq::empty())
    } else {
        let rest = path_of(levels.skip(1), idx / 2);
        (seq![levels[0][adj_of(idx)]] + rest.0, seq![idx % 2 == 0] + rest.1)
    }
}

/// The index of the sibling position.
pub open spec fn adj_of(i: int) -> int {
    if i % 2 == 1 {
        i - 1
    } else {
        i + 1
    }
}

/// The index of the sibling position, as `adj_of` states it.
pub fn adj(i: usize) -> (r: usize)
    requires
        i + 1 <= usize::MAX,
    ensures
        r == adj_of(i as int),
{
    if i % 2 == 1 {
        i - 1
    } else {
        i + 1
    }
}

/// The satisfaction relation of one Merkle-loop shard: every transition
/// leaf is the compression of two consecutive state commitments, and
/// its authentication path recomputes the public root.  The first and
/// last state commitment are the shard's public boundary values.
pub open spec fn ml_holds_of(
    params: HashParams,
    paths: Seq<Seq<Fe>>,
    sels: Seq<Seq<bool>>,
    leafs: Seq<Fe>,
    root: Fe,
) -> bool {
    &&& leafs.len() == paths.len() + 1
    &&& sels.len() == paths.len()
    &&& forall|i: int|
        0 <= i < paths.len() ==> (#[trigger] paths[i]).len() >= 1 && sels[i].len() == paths[i].len()
            - 1
    &&& forall|i: int|
        0 <= i < paths.len() ==> path_root_of(
            params,
            (#[trigger] paths[i])[0],
            paths[i].skip(1),
            sels[i],
        ) == root
    &&& forall|i: int|
        0 <= i < paths.len() ==> compress_of(params, leafs[i], leafs[i + 1]) == (
        #[trigger] paths[i])[0]
}

/// One shard of the Merkle-loop verifier: its three public values are
/// the first and last state commitment and the tree root; everything
/// else is private witness.
pub struct MerkleLoop {
    pub params: HashParams,
    pub paths: Vec<Vec<Fe>>,
    pub leafs: Vec<Fe>,
    pub root: Fe,
    pub selectors: Vec<Vec<bool>>,
}

/// The views of a list of hash lists.
pub open spec fn fes_views(s: Seq<Vec<Fe>>) -> Seq<Seq<Fe>> {
    Seq::new(s.len(), |i: int| s[i]@)
}

/// The views of a list of selector lists.
pub open spec fn bools_views(s: Seq<Vec<bool>>) -> Seq<Seq<bool>> {
    Seq::new(s.len(), |i: int| s[i]@)
}

impl MerkleLoop {
    /// The shard's satisfaction relation over its own fields.
    pub open spec fn holds(&self) -> bool {
        ml_holds_of(
            self.params,
            fes_views(self.paths@),
            bools_views(self.selectors@),
            self.leafs@,
            self.root,
        )
    }

    /// The three public inputs of the shard circuit, in their fixed
    /// order: start commitment, end commitment, root.
    pub fn get_inputs(&self) -> (r: Vec<Fe>)
        requires
            self.leafs@.len() >= 1,
        ensures
            r@ == seq![self.leafs@[0], self.leafs@.last(), self.root],
    {
        let mut r: Vec<Fe> = Vec::new();
        r.push(self.leafs[0]);
        r.push(self.leafs[self.leafs.len() - 1]);
        r.push(self.root);
        proof {
            assert(r@ =~= seq![self.leafs@[0], self.leafs@.last(), self.root]);
        }
        r
    }

    /// The boundary commitments and the root.
    pub fn get(&self) -> (r: (Fe, Fe, Fe))
        requires
            self.leafs@.len() >= 1,
        ensures
            r == (self.leafs@[0], self.leafs@.last(), self.root),
    {
        (self.leafs[0], self.leafs[self.leafs.len() - 1], self.root)
    }
}

/// Copies a hash list.
pub fn copy_fes(v: &Vec<Fe>) -> (r: Vec<Fe>)
    ensures
        r@ == v@,
{
    let mut r: Vec<Fe> = Vec::new();
    let n = v.len();
    for i in 0..n
        invariant
            n == v@.len(),
            r@ =~= v@.take(i as int),
    {
        r.push(v[i]);
        assert(r@ =~= v@.take(i + 1));
    }
    assert(v@.take(n as int) =~= v@);
    r
}

/// One level of the tree, as `level_up_of` states it.
pub fn compute_level(params: &HashParams, l: &Vec<Fe>) -> (r: Vec<Fe>)
    requires
        params_wf(*params),
    ensures
        r@ == level_up_of(*params, l@),
{
    let mut r: Vec<Fe> = Vec::new();
    let ln = l.len();
    let m = ln / 2;
    for i in 0..m
        invariant
            params_wf(*params),
            ln == l@.len(),
            m == l@.len() / 2,
            r@ =~= level_up_of(*params, l@).take(i as int),
    {
        let h = crate::code::hash_pair(params, &l[2 * i], &l[2 * i + 1]);
        r.push(h);
        assert(r@ =~= level_up_of(*params, l@).take(i + 1));
    }
    assert(level_up_of(*params, l@).take(m as int) =~= level_up_of(*params, l@));
    r
}

/// All levels of the tree, as `levels_of` states it.
pub fn compute_levels(params: &HashParams, l: &Vec<Fe>) -> (r: Vec<Vec<Fe>>)
    requires
        params_wf(*params),
        l@.len() >= 1,
    ensures
        fes_views(r@) == levels_of(*params, l@),
{
    let mut res: Vec<Vec<Fe>> = Vec::new();
    let first = copy_fes(l);
    let mut last = copy_fes(l);
    res.push(first);
    while last.len() > 1
        invariant
            params_wf(*params),
            res@.len() >= 1,
            res@.last()@ == last@,
            levels_of(*params, l@) == fes_views(res@.drop_last()) + levels_of(*params, last@),
        decreases last@.len(),
    {
        let up = compute_level(params, &last);
        proof {
            assert(levels_of(*params, last@) == seq![last@] + levels_of(
                *params,
                level_up_of(*params, last@),
            ));
        }
        let ghost res0 = res@;
        last = up;
        res.push(copy_fes(&last));
        proof {
            assert(res@.drop_last() =~= res0);
            assert(fes_views(res0) =~= fes_views(res0.drop_last()).push(res0.last()@));
            assert(fes_views(res0.drop_last()).push(res0.last()@) =~= fes_views(res0.drop_last())
                + seq![res0.last()@]);
            assert(levels_of(*params, l@) =~= fes_views(res@.drop_last()) + levels_of(
                *params,
                last@,
            ));
        }
    }
    proof {
        assert(levels_of(*params, last@) =~= seq![last@]);
        assert(fes_views(res@) =~= fes_views(res@.drop_last()).push(res@.last()@));
        assert(fes_views(res@.drop_last()).push(res@.last()@) =~= fes_views(res@.drop_last())
            + seq![last@]);
    }
    res
}

/// The authentication path of bottom position `idx`: the leaf first,
/// then one sibling per level, with the side selectors.  The levels
/// must halve exactly, as the levels of a power-of-two tree do.
#[verifier::rlimit(60)]
pub fn compute_path(levels: &Vec<Vec<Fe>>, idx: usize) -> (r: (Vec<Fe>, Vec<bool>))
    requires
        levels@.len() >= 1,
        idx < levels@[0]@.len(),
        forall|i: int|
            0 <= i < levels@.len() - 1 ==> (#[trigger] levels@[i])@.len() == 2 * levels@[i
                + 1]@.len(),
    ensures
        r.0@.len() == levels@.len(),
        r.1@.len() == levels@.len() - 1,
        r.0@[0] == levels@[0]@[idx as int],
        r.0@.skip(1) == path_of(fes_views(levels@), idx as int).0,
        r.1@ == path_of(fes_views(levels@), idx as int).1,
{
    let mut path: Vec<Fe> = Vec::new();
    let mut selector: Vec<bool> = Vec::new();
    path.push(levels[0][idx]);
    let n = levels.len();
    let mut cur = idx;
    proof {
        assert(fes_views(levels@).skip(0) =~= fes_views(levels@));
        assert(path@.skip(1) =~= Seq::<Fe>::empty());
    }
    for i in 0..(n - 1)
        invariant
            n == levels@.len(),
            n >= 1,
            forall|i2: int|
                0 <= i2 < levels@.len() - 1 ==> (#[trigger] levels@[i2])@.len() == 2 * levels@[i2
                    + 1]@.len(),
            cur < levels@[i as int]@.len(),
            path@.len() == i + 1,
            selector@.len() == i,
            path@[0] == levels@[0]@[idx as int],
            path@.skip(1) + path_of(fes_views(levels@).skip(i as int), cur as int).0 =~= path_of(
                fes_views(levels@),
                idx as int,
            ).0,
            selector@ + path_of(fes_views(levels@).skip(i as int), cur as int).1 =~= path_of(
                fes_views(levels@),
                idx as int,
            ).1,
    {
        proof {
            assert(levels@[i as int]@.len() == 2 * levels@[i + 1]@.len());
        }
        let _level_len = levels[i].len();
        let a = adj(cur);
        proof {
            if cur % 2 == 0 {
                assert(cur + 1 < levels@[i as int]@.len());
            }
        }
        path.push(levels[i][a]);
        selector.push(cur % 2 == 0);
        proof {
            let lv = fes_views(levels@);
            assert(lv.skip(i as int).skip(1) =~= lv.skip(i + 1));
            assert(lv.skip(i as int)[0] == levels@[i as int]@);
            assert(lv.skip(i as int).len() == n - i);
            assert(path_of(lv.skip(i as int), cur as int).0 == seq![
                levels@[i as int]@[adj_of(cur as int)],
            ] + path_of(lv.skip(i + 1), (cur as int) / 2).0);
            assert(path@.skip(1) + path_of(lv.skip(i + 1), (cur as int) / 2).0 =~= path_of(
                lv,
                idx as int,
            ).0);
            assert(selector@ + path_of(lv.skip(i + 1), (cur as int) / 2).1 =~= path_of(
                lv,
                idx as int,
            ).1);
        }
        cur = cur / 2;
    }
    proof {
        let lv = fes_views(levels@);
        assert(lv.skip(n - 1).len() == 1);
        assert(path_of(lv.skip(n - 1), cur as int).0 =~= Seq::<Fe>::empty());
        assert(path_of(lv.skip(n - 1), cur as int).1 =~= Seq::<bool>::empty());
        assert(path@.skip(1) =~= path@.skip(1) + Seq::<Fe>::empty());
        assert(selector@ =~= selector@ + Seq::<bool>::empty());
    }
    (path, selector)
}


/// The levels of a power-of-two tree halve exactly, start at the leaf
/// list and end in a single root.
pub proof fn lemma_levels_shape(params: HashParams, l: Seq<Fe>)
    requires
        is_pow2(l.len()),
    ensures
        levels_of(params, l).len() >= 1,
        levels_of(params, l)[0] == l,
        levels_of(params, l).last().len() == 1,
        forall|i: int|
            0 <= i < levels_of(params, l).len() - 1 ==> (#[trigger] levels_of(params, l)[i]).len()
                == 2 * levels_of(params, l)[i + 1].len(),
    decreases l.len(),
{
    if l.len() == 1 {
    } else {
        let up = level_up_of(params, l);
        assert(l.len() % 2 == 0 && is_pow2(l.len() / 2));
        assert(up.len() == l.len() / 2);
        lemma_levels_shape(params, up);
        let lv = levels_of(params, l);
        let lvup = levels_of(params, up);
        assert(lv == seq![l] + lvup);
        assert forall|i: int|
            0 <= i < lv.len() - 1 implies (#[trigger] lv[i]).len() == 2 * lv[i + 1].len() by {
            if i == 0 {
                assert(lv[0] == l);
                assert(lv[1] == lvup[0]);
            } else {
                assert(lv[i] == lvup[i - 1]);
                assert(lv[i + 1] == lvup[i]);
            }
        }
    }
}

/// Merkle paths recompute the root: for a power-of-two leaf list, the
/// authentication path of any position folds back to the tree root.
pub proof fn lemma_merkle_path(params: HashParams, l: Seq<Fe>, idx: int)
    requires
        is_pow2(l.len()),
        0 <= idx < l.len(),
    ensures
        path_root_of(
            params,
            l[idx],
            path_of(levels_of(params, l), idx).0,
            path_of(levels_of(params, l), idx).1,
        ) == levels_of(params, l).last()[0],
    decreases l.len(),
{
    let levels = levels_of(params, l);
    if l.len() == 1 {
        assert(levels =~= seq![l]);
        assert(path_of(levels, idx).0 =~= Seq::<Fe>::empty());
    } else {
        let up = level_up_of(params, l);
        assert(l.len() % 2 == 0 && is_pow2(l.len() / 2));
        assert(up.len() == l.len() / 2);
        lemma_merkle_path(params, up, idx / 2);
        let lvup = levels_of(params, up);
        assert(levels == seq![l] + lvup);
        assert(levels.skip(1) =~= lvup);
        let p = path_of(levels, idx);
        let prest = path_of(lvup, idx / 2);
        assert(p.0 == seq![l[adj_of(idx)]] + prest.0);
        assert(p.1 == seq![idx % 2 == 0] + prest.1);
        assert(p.0.skip(1) =~= prest.0);
        assert(p.1.skip(1) =~= prest.1);
        assert(p.0[0] == l[adj_of(idx)]);
        assert(p.1[0] == (idx % 2 == 0));
        let first = if idx % 2 == 0 {
            compress_of(params, l[idx], l[adj_of(idx)])
        } else {
            compress_of(params, l[adj_of(idx)], l[idx])
        };
        assert(first == up[idx / 2]) by {
            if idx % 2 == 0 {
                assert(2 * (idx / 2) == idx);
                assert(up[idx / 2] == compress_of(params, l[idx], l[idx + 1]));
            } else {
                assert(2 * (idx / 2) == idx - 1);
                assert(up[idx / 2] == compress_of(params, l[idx - 1], l[idx]));
            }
        }
        assert(path_root_of(params, l[idx], p.0, p.1) == path_root_of(
            params,
            first,
            p.0.skip(1),
            p.1.skip(1),
        ));
        assert(levels.last() == lvup.last());
    }
}

/// The root recomputed from a stored path, as `path_root_of` states it:
/// the leaf is the path's first entry, the siblings follow.
pub fn merkle_path_root(params: &HashParams, path: &Vec<Fe>, sels: &Vec<bool>) -> (r: Fe)
    requires
        params_wf(*params),
        path@.len() == sels@.len() + 1,
    ensures
        r == path_root_of(*params, path@[0], path@.skip(1), sels@),
{
    let mut acc = path[0];
    let n = sels.len();
    let ghost sibs = path@.skip(1);
    proof {
        assert(sibs.skip(0) =~= sibs);
        assert(sels@.skip(0) =~= sels@);
    }
    for i in 0..n
        invariant
            params_wf(*params),
            n == sels@.len(),
            path@.len() == n + 1,
            sibs == path@.skip(1),
            path_root_of(*params, path@[0], sibs, sels@) == path_root_of(
                *params,
                acc,
                sibs.skip(i as int),
                sels@.skip(i as int),
            ),
    {
        proof {
            assert(sibs.skip(i as int)[0] == path@[i + 1]);
            assert(sels@.skip(i as int)[0] == sels@[i as int]);
            assert(sibs.skip(i as int).skip(1) =~= sibs.skip(i + 1));
            assert(sels@.skip(i as int).skip(1) =~= sels@.skip(i + 1));
        }
        if sels[i] {
            acc = crate::code::hash_pair(params, &acc, &path[i + 1]);
        } else {
            acc = crate::code::hash_pair(params, &path[i + 1], &acc);
        }
    }
    proof {
        assert(sibs.skip(n as int).len() == 0);
    }
    acc
}

/// Decides the shard relation: whether every path recomputes the root
/// and every leaf is the compression of its two boundary commitments.
pub fn merkle_loop_holds(c: &MerkleLoop) -> (r: bool)
    requires
        params_wf(c.params),
    ensures
        r == c.holds(),
{
    let n = c.paths.len();
    if c.leafs.len() == 0 || c.leafs.len() - 1 != n {
        return false;
    }
    if c.selectors.len() != n {
        return false;
    }
    let ghost pv = fes_views(c.paths@);
    let ghost sv = bools_views(c.selectors@);
    for i in 0..n
        invariant
            params_wf(c.params),
            n == c.paths@.len(),
            c.leafs@.len() == n + 1,
            c.selectors@.len() == n,
            pv == fes_views(c.paths@),
            sv == bools_views(c.selectors@),
            forall|j: int|
                0 <= j < i ==> (#[trigger] pv[j]).len() >= 1 && sv[j].len() == pv[j].len() - 1,
            forall|j: int|
                0 <= j < i ==> path_root_of(c.params, (#[trigger] pv[j])[0], pv[j].skip(1), sv[j])
                    == c.root,
            forall|j: int|
                0 <= j < i ==> compress_of(c.params, c.leafs@[j], c.leafs@[j + 1]) == (
                #[trigger] pv[j])[0],
    {
        proof {
            assert(pv[i as int] == c.paths@[i as int]@);
            assert(sv[i as int] == c.selectors@[i as int]@);
        }
        if c.paths[i].len() == 0 {
            proof {
                assert(pv[i as int].len() == 0);
            }
            return false;
        }
        if c.selectors[i].len() != c.paths[i].len() - 1 {
            proof {
                assert(sv[i as int].len() != pv[i as int].len() - 1);
            }
            return false;
        }
        let root = merkle_path_root(&c.params, &c.paths[i], &c.selectors[i]);
        if !crate::field::fe_eq(&root, &c.root) {
            proof {
                assert(path_root_of(c.params, pv[i as int][0], pv[i as int].skip(1), sv[i as int])
                    != c.root);
            }
            return false;
        }
        let leaf = crate::code::hash_pair(&c.params, &c.leafs[i], &c.leafs[i + 1]);
        if !crate::field::fe_eq(&leaf, &c.paths[i][0]) {
            proof {
                assert(compress_of(c.params, c.leafs@[i as int], c.leafs@[i + 1]) != pv[i as int][0]);
            }
            return false;
        }
    }
    true
}

/// Builds the honest shard over a chained run: leaf `i` commits to the
/// pair of consecutive state commitments, and each leaf's path is read
/// off the computed tree.  The relation always holds of the result, so
/// the shard circuit is satisfiable with this natural witness.
pub fn build_merkle_loop(params: &HashParams, states: &Vec<Fe>) -> (r: MerkleLoop)
    requires
        params_wf(*params),
        states@.len() >= 2,
        is_pow2((states@.len() - 1) as nat),
    ensures
        r.holds(),
        r.leafs@ == states@,
        r.params == *params,
        r.root == levels_of(
            *params,
            Seq::new((states@.len() - 1) as nat, |i: int| compress_of(*params, states@[i], states@[i + 1])),
        ).last()[0],
{
    let n = states.len() - 1;
    let ghost leaves_spec = Seq::new(n as nat, |i: int| compress_of(*params, states@[i], states@[i + 1]));
    let mut leaves: Vec<Fe> = Vec::new();
    for i in 0..n
        invariant
            params_wf(*params),
            n == states@.len() - 1,
            leaves_spec == Seq::new(n as nat, |k: int| compress_of(*params, states@[k], states@[k + 1])),
            leaves@ =~= leaves_spec.take(i as int),
    {
        let h = crate::code::hash_pair(params, &states[i], &states[i + 1]);
        leaves.push(h);
        assert(leaves@ =~= leaves_spec.take(i + 1));
    }
    proof {
        assert(leaves_spec.take(n as int) =~= leaves_spec);
        lemma_levels_shape(*params, leaves@);
    }
    let levels = compute_levels(params, &leaves);
    let root_level = &levels[levels.len() - 1];
    let root = root_level[0];
    proof {
        assert(fes_views(levels@).last() == levels@.last()@);
        assert(levels@.last()@.len() == 1);
    }
    let mut paths: Vec<Vec<Fe>> = Vec::new();
    let mut selectors: Vec<Vec<bool>> = Vec::new();
    for i in 0..n
        invariant
            params_wf(*params),
            n == states@.len() - 1,
            n == leaves@.len(),
            leaves@ == leaves_spec,
            leaves_spec == Seq::new(n as nat, |k: int| compress_of(*params, states@[k], states@[k + 1])),
            is_pow2(n as nat),
            fes_views(levels@) == levels_of(*params, leaves@),
            root == levels_of(*params, leaves@).last()[0],
            paths@.len() == i,
            selectors@.len() == i,
            forall|j: int|
                0 <= j < i ==> (#[trigger] paths@[j])@.len() >= 1 && selectors@[j]@.len()
                    == paths@[j]@.len() - 1,
            forall|j: int|
                0 <= j < i ==> path_root_of(
                    *params,
                    (#[trigger] paths@[j])@[0],
                    paths@[j]@.skip(1),
                    selectors@[j]@,
                ) == root,
            forall|j: int|
                0 <= j < i ==> (#[trigger] paths@[j])@[0] == compress_of(
                    *params,
                    states@[j],
                    states@[j + 1],
                ),
    {
        proof {
            lemma_levels_shape(*params, leaves@);
            assert(fes_views(levels@)[0] == levels@[0]@);
            assert(levels@[0]@ == leaves@);
            assert forall|k: int|
                0 <= k < levels@.len() - 1 implies (#[trigger] levels@[k])@.len() == 2 * levels@[k
                    + 1]@.len() by {
                assert(fes_views(levels@)[k] == levels@[k]@);
                assert(fes_views(levels@)[k + 1] == levels@[k + 1]@);
            }
        }
        let (path, sels) = compute_path(&levels, i);
        proof {
            lemma_merkle_path(*params, leaves@, i as int);
            assert(path@[0] == leaves@[i as int]);
            assert(path_root_of(*params, path@[0], path@.skip(1), sels@) == root);
        }
        paths.push(path);
        selectors.push(sels);
    }
    let r = MerkleLoop { params: crate::field::clone_params(params), paths, leafs: copy_fes(states), root, selectors };
    proof {
        let pv = fes_views(r.paths@);
        let sv = bools_views(r.selectors@);
        assert forall|j: int|
            0 <= j < pv.len() implies (#[trigger] pv[j]).len() >= 1 && sv[j].len() == pv[j].len()
                - 1 by {
            assert(pv[j] == r.paths@[j]@);
            assert(sv[j] == r.selectors@[j]@);
        }
        assert forall|j: int|
            0 <= j < pv.len() implies path_root_of(r.params, (#[trigger] pv[j])[0], pv[j].skip(1), sv[j])
                == r.root by {
            assert(pv[j] == r.paths@[j]@);
            assert(sv[j] == r.selectors@[j]@);
        }
        assert forall|j: int|
            0 <= j < pv.len() implies compress_of(r.params, r.leafs@[j], r.leafs@[j + 1]) == (
            #[trigger] pv[j])[0] by {
            assert(pv[j] == r.paths@[j]@);
        }
    }
    r
}


/// The chaining failure of a run: some transition's after state does
/// not meet the next transition's before state.
#[derive(Debug)]
pub enum LoopError {
    ChainBroken,
}

/// The state commitments around a chained run of transitions: the
/// before commitment of every transition, then the last after
/// commitment.  Consecutive transitions must chain commitment to
/// commitment; a broken chain is reported, and exactly then.
pub fn states_of_transitions(params: &HashParams, trs: &Vec<crate::vm::Transition>) -> (r: Result<
    Vec<Fe>,
    LoopError,
>)
    requires
        params_wf(*params),
        trs@.len() >= 1,
    ensures
        r matches Ok(states) ==> ({
            &&& states@.len() == trs@.len() + 1
            &&& forall|i: int|
                0 <= i < trs@.len() ==> states@[i] == crate::vm::vm_hash_of(
                    *params,
                    (#[trigger] trs@[i])@.before,
                )
            &&& states@.last() == crate::vm::vm_hash_of(*params, trs@.last()@.after)
            &&& forall|i: int|
                0 <= i < trs@.len() ==> crate::vm::vm_hash_of(*params, (#[trigger] trs@[i])@.after)
                    == states@[i + 1]
        }),
        r is Err <==> (exists|i: int|
            0 <= i < trs@.len() - 1 && crate::vm::vm_hash_of(*params, (#[trigger] trs@[i])@.after)
                != crate::vm::vm_hash_of(*params, trs@[i + 1]@.before)),
{
    let n = trs.len();
    let mut states: Vec<Fe> = Vec::new();
    for i in 0..n
        invariant
            params_wf(*params),
            n == trs@.len(),
            states@.len() == i,
            forall|j: int|
                0 <= j < i ==> states@[j] == crate::vm::vm_hash_of(
                    *params,
                    (#[trigger] trs@[j])@.before,
                ),
            forall|j: int|
                0 <= j < i - 1 ==> crate::vm::vm_hash_of(*params, (#[trigger] trs@[j])@.after)
                    == crate::vm::vm_hash_of(*params, trs@[j + 1]@.before),
    {
        let h = trs[i].before.hash(params);
        if i > 0 {
            let prev_after = trs[i - 1].after.hash(params);
            if !crate::field::fe_eq(&prev_after, &h) {
                proof {
                    assert(crate::vm::vm_hash_of(*params, trs@[i - 1]@.after)
                        != crate::vm::vm_hash_of(*params, trs@[i as int]@.before));
                }
                return Err(LoopError::ChainBroken);
            }
        }
        states.push(h);
    }
    let last = trs[n - 1].after.hash(params);
    states.push(last);
    proof {
        assert forall|i: int|
            0 <= i < trs@.len() implies crate::vm::vm_hash_of(*params, (#[trigger] trs@[i])@.after)
                == states@[i + 1] by {
            if i < trs@.len() - 1 {
                assert(states@[i + 1] == crate::vm::vm_hash_of(*params, trs@[i + 1]@.before));
            }
        }
    }
    Ok(states)
}


/// Shard `j` carries exactly slice `j` of a run cut into pieces of
/// `k` transitions: its paths and selectors are the slice's, and its
/// `k + 1` boundary commitments are the run's around that slice.
pub open spec fn shard_slice_of(s: MerkleLoop, c: MerkleLoop, k: int, j: int) -> bool {
    &&& s.paths@.len() == k
    &&& s.selectors@.len() == k
    &&& s.leafs@.len() == k + 1
    &&& forall|m: int|
        0 <= m < k ==> (#[trigger] s.paths@[m])@ == c.paths@[j * k + m]@ && s.selectors@[m]@
            == c.selectors@[j * k + m]@
    &&& forall|m: int| 0 <= m < k + 1 ==> (#[trigger] s.leafs@[m]) == c.leafs@[j * k + m]
}

/// Splits a holding run into `num` equal shards, each proved
/// independently against the same root: shard `i` takes transitions
/// `[i*k, (i+1)*k)` and the boundary commitments around them, so
/// consecutive shards chain end to start and the whole list spans from
/// the run's first commitment to its last.
pub fn shard_merkle_loop(c: &MerkleLoop, num: usize) -> (r: Vec<MerkleLoop>)
    requires
        c.holds(),
        num >= 1,
        c.paths@.len() == num * ((c.paths@.len() as int) / (num as int)),
        (c.paths@.len() as int) / (num as int) >= 1,
    ensures
        r@.len() == num,
        forall|i: int| 0 <= i < num ==> (#[trigger] r@[i]).holds(),
        forall|i: int| 0 <= i < num ==> (#[trigger] r@[i]).root == c.root,
        forall|i: int|
            0 <= i < num ==> (#[trigger] r@[i]).leafs@[0] == c.leafs@[i * ((c.paths@.len() as int)
                / (num as int))],
        forall|i: int|
            0 <= i < num ==> (#[trigger] r@[i]).leafs@.last() == c.leafs@[(i + 1) * ((
            c.paths@.len() as int) / (num as int))],
        // each shard carries exactly its slice of the run
        forall|i: int|
            0 <= i < num ==> #[trigger] shard_slice_of(
                r@[i],
                *c,
                (c.paths@.len() as int) / (num as int),
                i,
            ),
{
    let n = c.paths.len();
    let nl = c.leafs.len();
    let slice = n / num;
    let ghost k = (c.paths@.len() as int) / (num as int);
    let mut shards: Vec<MerkleLoop> = Vec::new();
    for i in 0..num
        invariant
            n == c.paths@.len(),
            nl == c.leafs@.len(),
            nl == n + 1,
            slice == k,
            k >= 1,
            n == num * k,
            c.holds(),
            shards@.len() == i,
            forall|j: int| 0 <= j < i ==> (#[trigger] shards@[j]).holds(),
            forall|j: int| 0 <= j < i ==> (#[trigger] shards@[j]).root == c.root,
            forall|j: int| 0 <= j < i ==> (#[trigger] shards@[j]).leafs@[0] == c.leafs@[j * k],
            forall|j: int|
                0 <= j < i ==> (#[trigger] shards@[j]).leafs@.last() == c.leafs@[(j + 1) * k],
            forall|j: int| 0 <= j < i ==> #[trigger] shard_slice_of(shards@[j], *c, k, j),
    {
        proof {
            assert(i * k + k <= num * k) by (nonlinear_arith)
                requires
                    0 <= i < num && k >= 1,
            ;
            assert(0 <= i * k) by (nonlinear_arith)
                requires
                    0 <= i && k >= 1,
            ;
        }
        let lo = i * slice;
        let hi = lo + slice;
        let mut paths: Vec<Vec<Fe>> = Vec::new();
        let mut selectors: Vec<Vec<bool>> = Vec::new();
        let mut leafs: Vec<Fe> = Vec::new();
        for j in lo..hi
            invariant
                n == c.paths@.len(),
                c.selectors@.len() == n,
                c.holds(),
                lo == i * k,
                hi == lo + k,
                hi <= n,
                paths@.len() == j - lo,
                selectors@.len() == j - lo,
                forall|m: int|
                    0 <= m < j - lo ==> (#[trigger] paths@[m])@ == c.paths@[lo + m]@,
                forall|m: int|
                    0 <= m < j - lo ==> (#[trigger] selectors@[m])@ == c.selectors@[lo + m]@,
        {
            let p = copy_fes(&c.paths[j]);
            paths.push(p);
            let mut sels: Vec<bool> = Vec::new();
            let sl = c.selectors[j].len();
            for m in 0..sl
                invariant
                    n == c.paths@.len(),
                    c.selectors@.len() == n,
                    lo <= j < n,
                    sl == c.selectors@[j as int]@.len(),
                    sels@ =~= c.selectors@[j as int]@.take(m as int),
            {
                sels.push(c.selectors[j][m]);
                assert(sels@ =~= c.selectors@[j as int]@.take(m + 1));
            }
            assert(sels@ =~= c.selectors@[j as int]@);
            selectors.push(sels);
        }
        for j in lo..(hi + 1)
            invariant
                n == c.paths@.len(),
                nl == c.leafs@.len(),
                nl == n + 1,
                c.leafs@.len() == n + 1,
                lo == i * k,
                hi == lo + k,
                hi <= n,
                leafs@.len() == j - lo,
                forall|m: int| 0 <= m < j - lo ==> (#[trigger] leafs@[m]) == c.leafs@[lo + m],
        {
            leafs.push(c.leafs[j]);
        }
        let ghost pv2 = paths@;
        let ghost sv2 = selectors@;
        let ghost lv2 = leafs@;
        let shard = MerkleLoop {
            params: crate::field::clone_params(&c.params),
            paths,
            leafs,
            root: c.root,
            selectors,
        };
        proof {
            let pv = fes_views(shard.paths@);
            let sv = bools_views(shard.selectors@);
            let cpv = fes_views(c.paths@);
            let csv = bools_views(c.selectors@);
            assert forall|m: int| 0 <= m < pv.len() implies (#[trigger] pv[m]) == cpv[lo + m] by {
                assert(pv[m] == shard.paths@[m]@);
                assert(cpv[lo + m] == c.paths@[lo + m]@);
            }
            assert forall|m: int| 0 <= m < sv.len() implies (#[trigger] sv[m]) == csv[lo + m] by {
                assert(sv[m] == shard.selectors@[m]@);
                assert(csv[lo + m] == c.selectors@[lo + m]@);
            }
            assert(shard.holds());
            assert((i + 1) * k == lo + k) by (nonlinear_arith)
                requires
                    lo == i * k,
            ;
        }
        proof {
            assert(shard_slice_of(shard, *c, k, i as int)) by {
                assert(shard.paths@ == pv2);
                assert(shard.selectors@ == sv2);
                assert(shard.leafs@ == lv2);
                assert forall|m: int|
                    0 <= m < k implies (#[trigger] shard.paths@[m])@ == c.paths@[(i as int) * k
                    + m]@ && shard.selectors@[m]@ == c.selectors@[(i as int) * k + m]@ by {
                    assert(pv2[m]@ == c.paths@[lo + m]@);
                    assert(sv2[m]@ == c.selectors@[lo + m]@);
                }
                assert forall|m: int|
                    0 <= m < k + 1 implies (#[trigger] shard.leafs@[m]) == c.leafs@[(i as int) * k
                    + m] by {
                    assert(lv2[m] == c.leafs@[lo + m]);
                }
            }
        }
        let ghost prev = shards@;
        shards.push(shard);
        proof {
            assert forall|j2: int|
                0 <= j2 < i + 1 implies #[trigger] shard_slice_of(shards@[j2], *c, k, j2) by {
                if j2 < i {
                    assert(shards@[j2] == prev[j2]);
                }
            }
        }
    }
    shards
}

} // verus!
