//! Entry names arranged as a directory tree.

use vstd::prelude::*;

use crate::names::string_of_chars;

verus! {

/// The name of the root of a tree.
pub const ROOT_NAME: &'static str = "/";

/// A directory tree node: a path component and what lies under it.
pub struct TreeNode {
    pub name: String,
    pub children: Vec<TreeNode>,
}

/// `s` cut at every `/`, as `str::split` cuts it.
pub open spec fn split_path(s: Seq<char>) -> Seq<Seq<char>>
    decreases s.len(),
{
    if s.len() == 0 {
        seq![seq![]]
    } else {
        let prev = split_path(s.drop_last());
        if s.last() == '/' {
            prev.push(seq![])
        } else {
            prev.update(prev.len() - 1, prev.last().push(s.last()))
        }
    }
}

/// The components up to the first empty one.
pub open spec fn kept(p: Seq<Seq<char>>) -> Seq<Seq<char>>
    decreases p.len(),
{
    if p.len() == 0 || p[0].len() == 0 {
        seq![]
    } else {
        seq![p[0]] + kept(p.drop_first())
    }
}

/// The components of a path that the tree records.
pub open spec fn path_of(s: Seq<char>) -> Seq<Seq<char>> {
    kept(split_path(s))
}

/// Whether `q` is a start of `p`.
pub open spec fn is_prefix(q: Seq<Seq<char>>, p: Seq<Seq<char>>) -> bool {
    q.len() <= p.len() && q == p.subrange(0, q.len() as int)
}

/// Whether the tree holds the chain of nodes `p` below `t`.
pub open spec fn has_path(t: TreeNode, p: Seq<Seq<char>>) -> bool
    decreases p.len(),
{
    p.len() == 0 || exists|i: int|
        0 <= i < t.children@.len() && (#[trigger] t.children@[i]).name@ == p[0] && has_path(
            t.children@[i],
            p.drop_first(),
        )
}

/// Whether no two of the nodes `c` have the same name.
pub open spec fn distinct_names(c: Seq<TreeNode>) -> bool {
    forall|i: int, k: int| 0 <= i < k < c.len() ==> (#[trigger] c[i]).name@ != (#[trigger] c[k]).name@
}

/// Whether the nodes along the names `p` from `t` each have children with distinct names.
pub open spec fn distinct_below(t: TreeNode, p: Seq<Seq<char>>) -> bool
    decreases p.len(),
{
    &&& distinct_names(t.children@)
    &&& p.len() > 0 ==> forall|i: int|
        0 <= i < t.children@.len() && (#[trigger] t.children@[i]).name@ == p[0] ==> distinct_below(
            t.children@[i],
            p.drop_first(),
        )
}

/// Whether no node of the tree has two children with the same name.
pub open spec fn tree_wf(t: TreeNode) -> bool {
    forall|p: Seq<Seq<char>>| #[trigger] distinct_below(t, p)
}

/// A well-formed tree's children are well-formed trees.
proof fn lemma_child_wf(t: TreeNode, i: int)
    requires
        tree_wf(t),
        0 <= i < t.children@.len(),
    ensures
        tree_wf(t.children@[i]),
{
    let c = t.children@[i];
    assert forall|q: Seq<Seq<char>>| #[trigger] distinct_below(c, q) by {
        let p = seq![c.name@] + q;
        assert(distinct_below(t, p));
        assert(p.drop_first() =~= q);
    }
}

/// What the strings of `v` hold.
pub open spec fn texts(v: Seq<String>) -> Seq<Seq<char>> {
    v.map_values(|s: String| s@)
}

impl TreeNode {
    /// The component this node stands for.
    pub fn name(&self) -> (r: &str)
        ensures
            r@ == self.name@,
    {
        self.name.as_str()
    }

    /// The nodes under this one, in the order they were first met.
    pub fn children(&self) -> (r: &[TreeNode])
        ensures
            r@ == self.children@,
    {
        self.children.as_slice()
    }
}

/// The components of `s` up to the first empty one.
pub fn path_components(s: &str) -> (r: Vec<String>)
    ensures
        texts(r@) == path_of(s@),
{
    let n = s.unicode_len();
    let mut done: Vec<String> = Vec::new();
    let mut cur: Vec<char> = Vec::new();
    let mut i: usize = 0;
    while i < n
        invariant
            i <= n == s@.len(),
            split_path(s@.subrange(0, i as int)) == texts(done@).push(cur@),
        decreases n - i,
    {
        let c = s.get_char(i);
        assert(s@.subrange(0, i + 1).drop_last() =~= s@.subrange(0, i as int));
        if c == '/' {
            let part = string_of_chars(cur);
            proof {
                assert(texts(done@.push(part)).push(Seq::<char>::empty()) =~= texts(done@).push(part@).push(seq![]));
            }
            done.push(part);
            cur = Vec::new();
        } else {
            proof {
                let prev = texts(done@).push(cur@);
                assert(prev.update(prev.len() - 1, cur@.push(c)) =~= texts(done@).push(cur@.push(c)));
            }
            cur.push(c);
        }
        i += 1;
    }
    assert(s@.subrange(0, n as int) =~= s@);
    let last = string_of_chars(cur);
    done.push(last);
    assert(texts(done@) =~= split_path(s@));
    // keep the components up to the first empty one
    let mut out: Vec<String> = Vec::new();
    let mut k: usize = 0;
    assert(texts(done@).subrange(0, done@.len() as int) =~= texts(done@));
    assert(texts(out@) + kept(texts(done@)) =~= kept(texts(done@)));
    while k < done.len() && done[k].unicode_len() > 0
        invariant
            k <= done@.len(),
            path_of(s@) == texts(out@) + kept(texts(done@).subrange(k as int, done@.len() as int)),
        decreases done@.len() - k,
    {
        let ghost rest = texts(done@).subrange(k as int, done@.len() as int);
        assert(rest.drop_first() =~= texts(done@).subrange(k + 1, done@.len() as int));
        let part = done[k].clone();
        assert(texts(out@.push(part)) + kept(rest.drop_first()) =~= texts(out@) + (seq![rest[0]] + kept(rest.drop_first())));
        out.push(part);
        k += 1;
    }
    proof {
        let rest = texts(done@).subrange(k as int, done@.len() as int);
        assert(kept(rest) == Seq::<Seq<char>>::empty());
        assert(texts(out@) + kept(rest) =~= texts(out@));
    }
    out
}

/// Whether `r` is what adding the chain of names `p` below a node named `name` with
/// children `children` gives: an empty chain, or one that starts with an empty name,
/// changes nothing; else the first child with the name `p[0]` takes the rest of the
/// chain in its place, or, when there is none, a new child `p[0]` that takes it is put last.
pub open spec fn subtree_step(name: Seq<char>, children: Seq<TreeNode>, r: TreeNode, p: Seq<Seq<char>>) -> bool
    decreases p.len(),
{
    &&& r.name@ == name
    &&& if p.len() == 0 || p[0].len() == 0 {
        r.children@ == children
    } else {
        ||| exists|k: int|
            0 <= k < children.len() && (#[trigger] children[k]).name@ == p[0] && (forall|m: int|
                0 <= m < k ==> (#[trigger] children[m]).name@ != p[0]) && r.children@ == children.update(
                k,
                r.children@[k],
            ) && subtree_step(children[k].name@, children[k].children@, r.children@[k], p.drop_first())
        ||| (forall|k: int| 0 <= k < children.len() ==> (#[trigger] children[k]).name@ != p[0])
            && r.children@.len() == children.len() + 1 && r.children@ == children.push(r.children@.last())
            && subtree_step(p[0], seq![], r.children@.last(), p.drop_first())
    }
}

/// Cutting a chain at its first empty name twice cuts it once.
proof fn lemma_kept_kept(p: Seq<Seq<char>>)
    ensures
        kept(kept(p)) == kept(p),
    decreases p.len(),
{
    if p.len() > 0 && p[0].len() > 0 {
        lemma_kept_kept(p.drop_first());
        assert((seq![p[0]] + kept(p.drop_first())).drop_first() =~= kept(p.drop_first()));
    }
}

/// The components of `parts` from `j` on.
pub open spec fn suffix(parts: Seq<String>, j: int) -> Seq<Seq<char>> {
    texts(parts).subrange(j, parts.len() as int)
}

/// Adds the chain of nodes `parts[j..]`, up to its first empty name, below `node`,
/// reusing the nodes already there.
pub fn build_subtree(node: TreeNode, parts: &Vec<String>, j: usize) -> (r: TreeNode)
    requires
        j <= parts@.len(),
    ensures
        subtree_step(node.name@, node.children@, r, suffix(parts@, j as int)),
        r.name@ == node.name@,
        has_path(r, kept(suffix(parts@, j as int))),
        forall|q: Seq<Seq<char>>| #[trigger] has_path(node, q) ==> has_path(r, q),
        forall|q: Seq<Seq<char>>| #[trigger] has_path(r, q) ==> has_path(node, q) || is_prefix(q, kept(suffix(parts@, j as int))),
        tree_wf(node) ==> tree_wf(r),
        j == parts@.len() || parts@[j as int]@.len() == 0 ==> r == node,
    decreases parts@.len() - j,
{
    let ghost pj = suffix(parts@, j as int);
    if j == parts.len() || parts[j].unicode_len() == 0 {
        proof {
            assert(kept(pj).len() == 0);
            assert forall|q: Seq<Seq<char>>| #[trigger] has_path(node, q) implies has_path(node, q) || is_prefix(q, kept(pj)) by {}
        }
        return node;
    }
    let ghost old_node = node;
    let ghost pj1 = suffix(parts@, j + 1);
    let ghost kp = kept(pj);
    let ghost kp1 = kept(pj1);
    proof {
        assert(pj.drop_first() =~= pj1);
        assert(pj[0] == parts@[j as int]@);
        assert(kp == seq![pj[0]] + kp1);
    }
    let mut node = node;
    let mut idx: usize = 0;
    let n = node.children.len();
    while idx < n && node.children[idx].name != parts[j]
        invariant
            idx <= n == node.children@.len(),
            j < parts@.len(),
            node == old_node,
            forall|k: int| 0 <= k < idx ==> (#[trigger] node.children@[k]).name@ != parts@[j as int]@,
        decreases n - idx,
    {
        idx += 1;
    }
    let ghost changed: int;
    let ghost old_child: TreeNode;
    if idx < n {
        let child = node.children.remove(idx);
        proof {
            old_child = child;
        }
        let new_child = build_subtree(child, parts, j + 1);
        node.children.insert(idx, new_child);
        proof {
            changed = idx as int;
            assert(node.children@ =~= old_node.children@.update(idx as int, new_child));
            assert(old_node.children@[changed].name@ == parts@[j as int]@);
            assert(subtree_step(old_child.name@, old_child.children@, new_child, pj.drop_first()));
        }
    } else {
        let leaf = TreeNode { name: parts[j].clone(), children: Vec::new() };
        proof {
            old_child = leaf;
            assert forall|q: Seq<Seq<char>>| #[trigger] has_path(leaf, q) implies q.len() == 0 by {}
            assert forall|q: Seq<Seq<char>>| #[trigger] distinct_below(leaf, q) by {}
        }
        let new_child = build_subtree(leaf, parts, j + 1);
        node.children.push(new_child);
        proof {
            assert(leaf.children@ =~= Seq::<TreeNode>::empty());
            assert(subtree_step(pj[0], seq![], new_child, pj.drop_first()));
            changed = n as int;
            assert(node.children@ =~= old_node.children@.push(new_child));
        }
    }
    proof {
        let nc = node.children@[changed];
        assert(nc.name@ == pj[0]);
        assert(has_path(nc, kp1));
        assert(kp.drop_first() =~= kp1);
        assert(has_path(node, kp));
        assert forall|q: Seq<Seq<char>>| #[trigger] has_path(old_node, q) implies has_path(node, q) by {
            if q.len() > 0 {
                let i = choose|i: int|
                    0 <= i < old_node.children@.len() && (#[trigger] old_node.children@[i]).name@ == q[0]
                        && has_path(old_node.children@[i], q.drop_first());
                if i == changed {
                    assert(has_path(old_child, q.drop_first()));
                    assert(has_path(nc, q.drop_first()));
                } else {
                    assert(node.children@[i] == old_node.children@[i]);
                }
            }
        }
        assert forall|q: Seq<Seq<char>>| #[trigger] has_path(node, q) implies has_path(old_node, q)
            || is_prefix(q, kp) by {
            if q.len() > 0 {
                let i = choose|i: int|
                    0 <= i < node.children@.len() && (#[trigger] node.children@[i]).name@ == q[0]
                        && has_path(node.children@[i], q.drop_first());
                if i == changed {
                    let q1 = q.drop_first();
                    assert(has_path(nc, q1));
                    if has_path(old_child, q1) && changed < old_node.children@.len() {
                        assert(old_node.children@[changed] == old_child);
                        assert(has_path(old_node, q));
                    } else {
                        if has_path(old_child, q1) {
                            assert(old_child.children@.len() == 0);
                            assert(q1.len() == 0);
                            assert(q1 =~= kp1.subrange(0, 0));
                        }
                        assert(is_prefix(q1, kp1));
                        assert(q =~= seq![q[0]] + q1);
                        assert(kp.subrange(0, q.len() as int) =~= seq![kp[0]] + kp1.subrange(0, q1.len() as int));
                    }
                } else {
                    assert(old_node.children@[i] == node.children@[i]);
                }
            }
        }
        if tree_wf(old_node) {
            if changed < old_node.children@.len() {
                lemma_child_wf(old_node, changed);
            }
            assert(distinct_names(node.children@)) by {
                assert(distinct_below(old_node, Seq::<Seq<char>>::empty()));
                assert forall|a: int, b: int| 0 <= a < b < node.children@.len() implies
                    (#[trigger] node.children@[a]).name@ != (#[trigger] node.children@[b]).name@ by {
                    if a != changed && b != changed {
                        assert(node.children@[a] == old_node.children@[a]);
                        assert(node.children@[b] == old_node.children@[b]);
                    } else if a == changed {
                        assert(node.children@[b] == old_node.children@[b]);
                        if changed < old_node.children@.len() {
                            assert(old_node.children@[a].name@ == nc.name@);
                        }
                    } else {
                        assert(node.children@[a] == old_node.children@[a]);
                        if changed < old_node.children@.len() {
                            assert(old_node.children@[b].name@ == nc.name@);
                        }
                    }
                }
            }
            assert forall|p: Seq<Seq<char>>| #[trigger] distinct_below(node, p) by {
                assert(distinct_below(old_node, p));
                if p.len() > 0 {
                    assert forall|i: int| 0 <= i < node.children@.len() && (#[trigger] node.children@[i]).name@
                        == p[0] implies distinct_below(node.children@[i], p.drop_first()) by {
                        if i == changed {
                            assert(tree_wf(nc));
                            assert(distinct_below(nc, p.drop_first()));
                        } else {
                            assert(node.children@[i] == old_node.children@[i]);
                        }
                    }
                }
            }
        }
        if changed < old_node.children@.len() {
            assert(node.children@ == old_node.children@.update(changed, node.children@[changed]));
            assert(forall|m: int| 0 <= m < changed ==> (#[trigger] old_node.children@[m]).name@ != pj[0]);
            assert(old_node.children@[changed] == old_child);
        } else {
            assert(forall|k: int| 0 <= k < old_node.children@.len() ==> (#[trigger] old_node.children@[k]).name@
                != parts@[j as int]@);
            assert(node.children@.last() == nc);
        }
    }
    node
}

/// Arranges the paths in `raw_tree` as a tree under a root named `/`; each path is cut
/// at every `/`, and the components after the first empty one are left out.
pub fn build_tree(raw_tree: Vec<String>) -> (r: TreeNode)
    ensures
        r.name@ == ROOT_NAME@,
        exists|steps: Seq<TreeNode>| {
            &&& steps.len() == raw_tree@.len() + 1
            &&& steps[0].name@ == ROOT_NAME@
            &&& steps[0].children@.len() == 0
            &&& steps.last() == r
            &&& forall|i: int| 0 <= i < raw_tree@.len() ==> #[trigger] subtree_step(steps[i].name@, steps[i].children@, steps[i + 1], path_of(raw_tree@[i]@))
        },
        tree_wf(r),
        forall|i: int| 0 <= i < raw_tree@.len() ==> has_path(r, path_of(#[trigger] raw_tree@[i]@)),
        forall|q: Seq<Seq<char>>| #[trigger] has_path(r, q) ==> q.len() == 0 || exists|i: int|
            0 <= i < raw_tree@.len() && is_prefix(q, path_of(#[trigger] raw_tree@[i]@)),
{
    let mut root = TreeNode { name: ROOT_NAME.to_owned(), children: Vec::new() };
    proof {
        assert forall|q: Seq<Seq<char>>| #[trigger] has_path(root, q) implies q.len() == 0 by {}
        assert forall|q: Seq<Seq<char>>| #[trigger] distinct_below(root, q) by {}
    }
    let ghost mut steps: Seq<TreeNode> = seq![root];
    let mut k: usize = 0;
    while k < raw_tree.len()
        invariant
            k <= raw_tree@.len(),
            root.name@ == ROOT_NAME@,
            steps.len() == k + 1,
            steps[0].name@ == ROOT_NAME@,
            steps[0].children@.len() == 0,
            steps.last() == root,
            forall|i: int| 0 <= i < k ==> #[trigger] subtree_step(steps[i].name@, steps[i].children@, steps[i + 1], path_of(raw_tree@[i]@)),
            tree_wf(root),
            forall|i: int| 0 <= i < k ==> has_path(root, path_of(#[trigger] raw_tree@[i]@)),
            forall|q: Seq<Seq<char>>| #[trigger] has_path(root, q) ==> q.len() == 0 || exists|i: int|
                0 <= i < k && is_prefix(q, path_of(#[trigger] raw_tree@[i]@)),
        decreases raw_tree@.len() - k,
    {
        let parts = path_components(raw_tree[k].as_str());
        let ghost before = root;
        proof {
            assert(suffix(parts@, 0) =~= texts(parts@));
            lemma_kept_kept(split_path(raw_tree@[k as int]@));
        }
        root = build_subtree(root, &parts, 0);
        proof {
            let old_steps = steps;
            steps = steps.push(root);
            assert forall|i: int| 0 <= i < k + 1 implies #[trigger] subtree_step(steps[i].name@, steps[i].children@, steps[i + 1], path_of(raw_tree@[i]@)) by {
                if i < k {
                    assert(steps[i] == old_steps[i] && steps[i + 1] == old_steps[i + 1]);
                } else {
                    assert(steps[i] == before);
                }
            }
            assert forall|q: Seq<Seq<char>>| #[trigger] has_path(root, q) implies q.len() == 0 || exists|i: int|
                0 <= i < k + 1 && is_prefix(q, path_of(#[trigger] raw_tree@[i]@)) by {
                if !has_path(before, q) {
                    assert(is_prefix(q, path_of(raw_tree@[k as int]@)));
                }
            }
        }
        k += 1;
    }
    assert(steps.len() == raw_tree@.len() + 1);
    root
}

} // verus!
