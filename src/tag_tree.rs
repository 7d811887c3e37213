//! The tag tree: every tag path is a chain of nodes below a root, and the
//! node at the end of a chain holds the notes that carry exactly that tag.
//!
//! A tree is kept as a list of nodes, each with its path of names below the
//! root and its links. What a tree means is the map from node paths to link
//! sets that the list describes: several entries for one path stand for the
//! union of their links. Merging trees therefore never drops a branch, and
//! the order of merges does not change the meaning.
use vstd::prelude::*;
use crate::link::{opt_view, Link};
use crate::text::{chars_of, same};

verus! {

/// A link as plain values: target, subtarget, alias, source, attachment and broken flags.
pub type LinkView = (Seq<char>, Option<Seq<char>>, Option<Seq<char>>, Seq<char>, bool, bool);

pub open spec fn link_view(l: Link) -> LinkView {
    (l.target@, opt_view(l.subtarget), opt_view(l.alias), l.source_string@, l.is_attachment, l.broken)
}

pub open spec fn link_set(ls: Seq<Link>) -> Set<LinkView> {
    Set::new(|v: LinkView| exists|i: int| 0 <= i < ls.len() && link_view(ls[i]) == v)
}

pub open spec fn names_view(p: Seq<String>) -> Seq<Seq<char>> {
    Seq::new(p.len(), |i: int| p[i]@)
}

/// Meaning of a tree: node paths and the links at each.
pub type TreeModel = Map<Seq<Seq<char>>, Set<LinkView>>;

/// `m` with the links `ls` added at `path`; the node is created if missing.
pub open spec fn merge_one(m: TreeModel, path: Seq<Seq<char>>, ls: Set<LinkView>) -> TreeModel {
    if m.contains_key(path) {
        m.insert(path, m[path].union(ls))
    } else {
        m.insert(path, ls)
    }
}

/// Union of two trees' meanings: every node of either, with the union of links.
pub open spec fn merged(a: TreeModel, b: TreeModel) -> TreeModel {
    Map::new(
        |p: Seq<Seq<char>>| a.contains_key(p) || b.contains_key(p),
        |p: Seq<Seq<char>>| {
            let x = if a.contains_key(p) { a[p] } else { Set::empty() };
            let y = if b.contains_key(p) { b[p] } else { Set::empty() };
            x.union(y)
        },
    )
}

/// The meaning of `m` placed below a node named `name`.
pub open spec fn grafted(name: Seq<char>, m: TreeModel) -> TreeModel {
    Map::new(
        |p: Seq<Seq<char>>| p.len() > 0 && p[0] == name && m.contains_key(p.drop_first()),
        |p: Seq<Seq<char>>| m[p.drop_first()],
    )
}

#[derive(Debug)]
pub struct TreeNode {
    /// Names from below the root down to the node; empty for the root.
    pub path: Vec<String>,
    pub contents: Vec<Link>,
}

#[derive(Debug)]
pub struct Tree {
    pub name: String,
    pub nodes: Vec<TreeNode>,
}

pub open spec fn node_path(n: TreeNode) -> Seq<Seq<char>> {
    names_view(n.path@)
}

/// The meaning of a list of nodes.
pub open spec fn model_of(nodes: Seq<TreeNode>) -> TreeModel
    decreases nodes.len(),
{
    if nodes.len() == 0 {
        Map::empty()
    } else {
        let n = nodes.last();
        merge_one(model_of(nodes.drop_last()), node_path(n), link_set(n.contents@))
    }
}

impl Tree {
    pub open spec fn model(&self) -> TreeModel {
        model_of(self.nodes@)
    }

    /// A tree with only its root.
    pub fn new(name: &str) -> (r: Tree)
        ensures
            r.name@ == name@,
            r.model() == Map::<Seq<Seq<char>>, Set<LinkView>>::empty().insert(Seq::empty(), Set::empty()),
    {
        let root = TreeNode { path: Vec::new(), contents: Vec::new() };
        let mut nodes: Vec<TreeNode> = Vec::new();
        nodes.push(root);
        let t = Tree { name: name.to_owned(), nodes };
        proof {
            assert(t.nodes@.len() == 1);
            assert(t.nodes@.drop_last() =~= Seq::<TreeNode>::empty());
            assert(model_of(t.nodes@.drop_last()) == Map::<Seq<Seq<char>>, Set<LinkView>>::empty());
            assert(t.nodes@.last().path@.len() == 0);
            assert(names_view(t.nodes@.last().path@) =~= Seq::<Seq<char>>::empty());
            assert(t.nodes@.last().contents@.len() == 0);
            lemma_link_set_empty(t.nodes@.last().contents@);
        }
        t
    }

    /// Whether the root has no node below it.
    pub fn is_leaf(&self) -> (r: bool)
        ensures
            r == forall|p: Seq<Seq<char>>| #[trigger] model_of(self.nodes@).contains_key(p) ==> p.len() == 0,
    {
        let mut i: usize = 0;
        while i < self.nodes.len()
            invariant
                i <= self.nodes.len(),
                forall|j: int| 0 <= j < i ==> (#[trigger] self.nodes@[j]).path@.len() == 0,
            decreases self.nodes.len() - i,
        {
            if self.nodes[i].path.len() > 0 {
                proof {
                    lemma_model_keys(self.nodes@, i as int);
                    assert(node_path(self.nodes@[i as int]).len() > 0);
                }
                return false;
            }
            i = i + 1;
        }
        proof {
            assert forall|p: Seq<Seq<char>>| #[trigger] model_of(self.nodes@).contains_key(p) implies p.len() == 0 by {
                lemma_model_keys_only(self.nodes@, p);
            }
        }
        true
    }

    /// Adds a link to the root.
    pub fn add_link(&mut self, reference: Link)
        ensures
            final(self).name == old(self).name,
            final(self).model() == merge_one(old(self).model(), Seq::empty(), set![link_view(reference)]),
    {
        let ghost lv = link_view(reference);
        let mut contents: Vec<Link> = Vec::new();
        contents.push(reference);
        let node = TreeNode { path: Vec::new(), contents };
        proof {
            assert(names_view(node.path@) =~= Seq::<Seq<char>>::empty());
            assert(link_view(node.contents@[0]) == lv);
            assert forall|v: LinkView| link_set(node.contents@).contains(v) <==> set![lv].contains(v) by {
                if v == lv {
                    assert(link_view(node.contents@[0]) == v);
                }
            }
            assert(link_set(node.contents@) =~= set![lv]);
        }
        let ghost before = self.nodes@;
        self.nodes.push(node);
        assert(self.nodes@.drop_last() =~= before);
    }

    /// Merges `child` below the root: a node of the same name gets the union
    /// of the links and keeps every branch of both.
    pub fn add_child(&mut self, child: Tree)
        ensures
            final(self).name == old(self).name,
            final(self).model() == merged(old(self).model(), grafted(child.name@, child.model())),
    {
        let ghost start = self.nodes@;
        let ghost m0 = model_of(start);
        proof {
            assert(child.nodes@.subrange(0, 0) =~= Seq::<TreeNode>::empty());
            assert forall|p: Seq<Seq<char>>| #[trigger] m0.contains_key(p) implies merged(m0, grafted(child.name@, Map::empty()))[p] =~= m0[p] by {}
            assert(merged(m0, grafted(child.name@, Map::empty())) =~= m0);
        }
        let mut i: usize = 0;
        while i < child.nodes.len()
            invariant
                i <= child.nodes.len(),
                self.name == old(self).name,
                m0 == model_of(start),
                start == old(self).nodes@,
                model_of(self.nodes@) == merged(m0, grafted(child.name@, model_of(child.nodes@.subrange(0, i as int)))),
            decreases child.nodes.len() - i,
        {
            let node = copy_below(&child.name, &child.nodes[i]);
            proof {
                let pre = child.nodes@.subrange(0, i + 1);
                assert(pre.drop_last() =~= child.nodes@.subrange(0, i as int));
                lemma_graft_one(m0, child.name@, model_of(child.nodes@.subrange(0, i as int)),
                    node_path(child.nodes@[i as int]), link_set(child.nodes@[i as int].contents@));
            }
            let ghost before = self.nodes@;
            self.nodes.push(node);
            assert(self.nodes@.drop_last() =~= before);
            i = i + 1;
        }
        assert(child.nodes@.subrange(0, child.nodes@.len() as int) =~= child.nodes@);
    }

    /// A chain of nodes, one per name, below a root named by the first name;
    /// the last node holds the links. `None` when there is no name.
    pub fn from_iter_payload(branch: &Vec<String>, links: &Vec<Link>) -> (r: Option<Tree>)
        ensures
            branch@.len() == 0 ==> r is None,
            branch@.len() > 0 ==> (r matches Some(t) && t.name@ == branch@[0]@ && t.model() == chain_model(
                names_view(branch@),
                link_set(links@),
            )),
    {
        if branch.len() == 0 {
            return None;
        }
        let mut nodes: Vec<TreeNode> = Vec::new();
        let ghost bv = names_view(branch@);
        let mut k: usize = 0;
        while k < branch.len()
            invariant
                k <= branch.len(),
                bv == names_view(branch@),
                nodes@.len() == k,
                forall|j: int| 0 <= j < nodes@.len() ==> node_path(#[trigger] nodes@[j]) =~= bv.subrange(1, j + 1),
                forall|j: int| 0 <= j < nodes@.len() ==> (j < branch@.len() - 1 ==> (#[trigger] nodes@[j]).contents@.len() == 0),
                forall|j: int| 0 <= j < nodes@.len() ==> (j == branch@.len() - 1 ==> link_set((#[trigger] nodes@[j]).contents@) == link_set(links@)),
            decreases branch.len() - k,
        {
            let mut path: Vec<String> = Vec::new();
            let mut q: usize = 1;
            while q <= k
                invariant
                    1 <= q <= k + 1,
                    k < branch.len(),
                    bv == names_view(branch@),
                    names_view(path@) =~= bv.subrange(1, q as int),
                decreases k + 1 - q,
            {
                let ghost prior = path@;
                let x = branch[q].as_str().to_owned();
                path.push(x);
                proof {
                    lemma_names_push(prior, x);
                    assert(bv.subrange(1, q + 1) =~= bv.subrange(1, q as int).push(bv[q as int]));
                }
                q = q + 1;
            }
            let contents = if k + 1 == branch.len() { copy_links(links) } else { Vec::new() };
            nodes.push(TreeNode { path, contents });
            k = k + 1;
        }
        let t = Tree { name: branch[0].clone(), nodes };
        proof {
            lemma_chain_model(t.nodes@, bv, links@);
        }
        Some(t)
    }

    /// A chain of nodes without links; see `from_iter_payload`.
    pub fn from_iter(branch: &Vec<String>) -> (r: Option<Tree>)
        ensures
            branch@.len() == 0 <==> r is None,
            r matches Some(t) ==> t.name@ == branch@[0]@,
    {
        let none: Vec<Link> = Vec::new();
        Self::from_iter_payload(branch, &none)
    }

    /// Number of links over all node entries.
    pub fn get_count_recursive(&self) -> (r: usize)
        requires
            entry_count(self.nodes@) <= usize::MAX,
        ensures
            r == entry_count(self.nodes@),
    {
        let mut total: usize = 0;
        let mut i: usize = 0;
        while i < self.nodes.len()
            invariant
                i <= self.nodes.len(),
                total == entry_count(self.nodes@.subrange(0, i as int)),
                entry_count(self.nodes@) <= usize::MAX,
            decreases self.nodes.len() - i,
        {
            proof {
                let pre = self.nodes@.subrange(0, i + 1);
                assert(pre.drop_last() =~= self.nodes@.subrange(0, i as int));
                lemma_entry_count_prefix(self.nodes@, i + 1);
            }
            total = total + self.nodes[i].contents.len();
            i = i + 1;
        }
        assert(self.nodes@.subrange(0, self.nodes@.len() as int) =~= self.nodes@);
        total
    }

    /// Every link of every node entry, in list order.
    pub fn get_contents_recursive(&self) -> (r: Vec<Link>)
        ensures
            link_set(r@) == all_links(self.nodes@),
    {
        let mut out: Vec<Link> = Vec::new();
        let mut i: usize = 0;
        while i < self.nodes.len()
            invariant
                i <= self.nodes.len(),
                link_set(out@) == all_links(self.nodes@.subrange(0, i as int)),
            decreases self.nodes.len() - i,
        {
            let ghost o0 = out@;
            let mut extra = copy_links(&self.nodes[i].contents);
            let ghost ex = extra@;
            out.append(&mut extra);
            proof {
                let pre = self.nodes@.subrange(0, i + 1);
                assert(pre.drop_last() =~= self.nodes@.subrange(0, i as int));
                lemma_link_set_concat(o0, ex);
            }
            i = i + 1;
        }
        assert(self.nodes@.subrange(0, self.nodes@.len() as int) =~= self.nodes@);
        out
    }
}

/// The meaning of a chain: the nodes `b[1..k]` for each `k`, the last one
/// holding `links`.
pub open spec fn chain_model(b: Seq<Seq<char>>, links: Set<LinkView>) -> TreeModel {
    Map::new(
        |p: Seq<Seq<char>>| p.len() < b.len() && p == b.subrange(1, p.len() as int + 1),
        |p: Seq<Seq<char>>| if p.len() == b.len() - 1 { links } else { Set::empty() },
    )
}

/// Total number of links over the entries.
pub open spec fn entry_count(nodes: Seq<TreeNode>) -> int
    decreases nodes.len(),
{
    if nodes.len() == 0 {
        0
    } else {
        entry_count(nodes.drop_last()) + nodes.last().contents@.len()
    }
}

/// Every link of every entry.
pub open spec fn all_links(nodes: Seq<TreeNode>) -> Set<LinkView>
    decreases nodes.len(),
{
    if nodes.len() == 0 {
        Set::empty()
    } else {
        all_links(nodes.drop_last()).union(link_set(nodes.last().contents@))
    }
}

proof fn lemma_entry_count_prefix(nodes: Seq<TreeNode>, k: int)
    requires
        0 <= k <= nodes.len(),
    ensures
        entry_count(nodes.subrange(0, k)) <= entry_count(nodes),
    decreases nodes.len() - k,
{
    if k < nodes.len() {
        lemma_entry_count_prefix(nodes, k + 1);
        let pre = nodes.subrange(0, k + 1);
        assert(pre.drop_last() =~= nodes.subrange(0, k));
    } else {
        assert(nodes.subrange(0, k) =~= nodes);
    }
}

/// Adding a link to a list adds its view to the list's link set.
pub proof fn lemma_link_set_push(a: Seq<Link>, x: Link)
    ensures
        link_set(a.push(x)) == link_set(a).insert(link_view(x)),
{
    lemma_link_set_concat(a, seq![x]);
    assert(a.push(x) =~= a + seq![x]);
    assert(link_view(seq![x][0]) == link_view(x));
    assert(link_set(seq![x]) =~= set![link_view(x)]);
}

pub proof fn lemma_link_set_concat(a: Seq<Link>, b: Seq<Link>)
    ensures
        link_set(a + b) == link_set(a).union(link_set(b)),
{
    assert forall|v: LinkView| link_set(a + b).contains(v) <==> link_set(a).union(link_set(b)).contains(v) by {
        if link_set(a + b).contains(v) {
            let i = choose|i: int| 0 <= i < (a + b).len() && link_view((a + b)[i]) == v;
            if i < a.len() {
                assert(link_view(a[i]) == v);
            } else {
                assert(link_view(b[i - a.len()]) == v);
            }
        }
        if link_set(a).contains(v) {
            let i = choose|i: int| 0 <= i < a.len() && link_view(a[i]) == v;
            assert((a + b)[i] == a[i]);
        }
        if link_set(b).contains(v) {
            let i = choose|i: int| 0 <= i < b.len() && link_view(b[i]) == v;
            assert((a + b)[a.len() + i] == b[i]);
        }
    }
    assert(link_set(a + b) =~= link_set(a).union(link_set(b)));
}

/// Copies of the links.
fn copy_links(ls: &Vec<Link>) -> (r: Vec<Link>)
    ensures
        r@.len() == ls@.len(),
        forall|i: int| 0 <= i < ls@.len() ==> link_view(#[trigger] r@[i]) == link_view(ls@[i]),
        link_set(r@) == link_set(ls@),
{
    let mut out: Vec<Link> = Vec::new();
    let mut i: usize = 0;
    while i < ls.len()
        invariant
            i <= ls.len(),
            out@.len() == i,
            forall|j: int| 0 <= j < i ==> link_view(#[trigger] out@[j]) == link_view(ls@[j]),
        decreases ls.len() - i,
    {
        out.push(ls[i].duplicate());
        i = i + 1;
    }
    assert forall|v: LinkView| link_set(out@).contains(v) <==> link_set(ls@).contains(v) by {
        if link_set(out@).contains(v) {
            let i = choose|i: int| 0 <= i < out@.len() && link_view(out@[i]) == v;
            assert(link_view(ls@[i]) == v);
        }
        if link_set(ls@).contains(v) {
            let i = choose|i: int| 0 <= i < ls@.len() && link_view(ls@[i]) == v;
            assert(link_view(out@[i]) == v);
        }
    }
    assert(link_set(out@) =~= link_set(ls@));
    out
}

/// A copy of `node` placed below a node named `name`.
fn copy_below(name: &String, node: &TreeNode) -> (r: TreeNode)
    ensures
        node_path(r) == seq![name@] + node_path(*node),
        link_set(r.contents@) == link_set(node.contents@),
{
    let mut path: Vec<String> = Vec::new();
    path.push(name.clone());
    let mut i: usize = 0;
    while i < node.path.len()
        invariant
            i <= node.path.len(),
            names_view(path@) =~= seq![name@] + names_view(node.path@).subrange(0, i as int),
        decreases node.path.len() - i,
    {
        let ghost prior = path@;
        let x = node.path[i].as_str().to_owned();
        path.push(x);
        proof {
            lemma_names_push(prior, x);
            assert(names_view(node.path@).subrange(0, i + 1) =~= names_view(node.path@).subrange(0, i as int).push(node.path@[i as int]@));
        }
        i = i + 1;
    }
    assert(names_view(node.path@).subrange(0, node.path@.len() as int) =~= names_view(node.path@));
    TreeNode { path, contents: copy_links(&node.contents) }
}

/// Adding one entry below `c` to a tree grafted below `c` is grafting the
/// tree with that entry added.
proof fn lemma_graft_one(a: TreeModel, c: Seq<char>, m: TreeModel, p: Seq<Seq<char>>, s: Set<LinkView>)
    ensures
        merge_one(merged(a, grafted(c, m)), seq![c] + p, s) == merged(a, grafted(c, merge_one(m, p, s))),
{
    let q0 = seq![c] + p;
    assert(q0.drop_first() =~= p);
    let lhs = merge_one(merged(a, grafted(c, m)), q0, s);
    let rhs = merged(a, grafted(c, merge_one(m, p, s)));
    assert forall|q: Seq<Seq<char>>| lhs.contains_key(q) <==> rhs.contains_key(q) by {
        if q.len() > 0 && q[0] == c && q.drop_first() == p {
            assert(q =~= q0);
        }
    }
    assert forall|q: Seq<Seq<char>>| #[trigger] lhs.contains_key(q) implies lhs[q] == rhs[q] by {
        if q == q0 {
            assert(lhs[q] =~= rhs[q]);
        } else {
            if q.len() > 0 && q[0] == c && q.drop_first() == p {
                assert(q =~= q0);
            }
            assert(lhs[q] =~= rhs[q]);
        }
    }
    assert(lhs =~= rhs);
}

pub proof fn lemma_names_push(p: Seq<String>, x: String)
    ensures
        names_view(p.push(x)) == names_view(p).push(x@),
{
    assert(names_view(p.push(x)) =~= names_view(p).push(x@));
}

proof fn lemma_link_set_empty(ls: Seq<Link>)
    requires
        ls.len() == 0,
    ensures
        link_set(ls) == Set::<LinkView>::empty(),
{
    assert(link_set(ls) =~= Set::<LinkView>::empty());
}

/// The meaning of a chain of nodes as built by `from_iter_payload`.
proof fn lemma_chain_model(nodes: Seq<TreeNode>, b: Seq<Seq<char>>, links: Seq<Link>)
    requires
        b.len() > 0,
        nodes.len() == b.len(),
        forall|j: int| 0 <= j < nodes.len() ==> node_path(#[trigger] nodes[j]) =~= b.subrange(1, j + 1),
        forall|j: int| 0 <= j < nodes.len() ==> (j < b.len() - 1 ==> (#[trigger] nodes[j]).contents@.len() == 0),
        forall|j: int| 0 <= j < nodes.len() ==> (j == b.len() - 1 ==> link_set((#[trigger] nodes[j]).contents@) == link_set(links)),
    ensures
        model_of(nodes) == chain_model(b, link_set(links)),
{
    lemma_chain_prefix(nodes, b, links, nodes.len() as int);
    assert(nodes.subrange(0, nodes.len() as int) =~= nodes);
    assert(model_of(nodes) =~= chain_model(b, link_set(links)));
}

proof fn lemma_chain_prefix(nodes: Seq<TreeNode>, b: Seq<Seq<char>>, links: Seq<Link>, k: int)
    requires
        b.len() > 0,
        nodes.len() == b.len(),
        0 <= k <= nodes.len(),
        forall|j: int| 0 <= j < nodes.len() ==> node_path(#[trigger] nodes[j]) =~= b.subrange(1, j + 1),
        forall|j: int| 0 <= j < nodes.len() ==> (j < b.len() - 1 ==> (#[trigger] nodes[j]).contents@.len() == 0),
        forall|j: int| 0 <= j < nodes.len() ==> (j == b.len() - 1 ==> link_set((#[trigger] nodes[j]).contents@) == link_set(links)),
    ensures
        model_of(nodes.subrange(0, k)) =~= Map::new(
            |p: Seq<Seq<char>>| p.len() < k && p == b.subrange(1, p.len() as int + 1),
            |p: Seq<Seq<char>>| if p.len() == b.len() - 1 { link_set(links) } else { Set::empty() },
        ),
    decreases k,
{
    if k > 0 {
        lemma_chain_prefix(nodes, b, links, k - 1);
        let pre = nodes.subrange(0, k);
        assert(pre.drop_last() =~= nodes.subrange(0, k - 1));
        let n = nodes[k - 1];
        if k - 1 < b.len() - 1 {
            lemma_link_set_empty(n.contents@);
        }
        let prev = model_of(nodes.subrange(0, k - 1));
        assert(!prev.contains_key(node_path(n)));
    } else {
        assert(nodes.subrange(0, 0) =~= Seq::<TreeNode>::empty());
    }
}

/// Merging two subtrees into a tree, one after the other, gives the same
/// tree in either order: `add_child(c1)` then `add_child(c2)` equals
/// `add_child(c2)` then `add_child(c1)`.
pub proof fn lemma_insertion_order_independent(t: Tree, c1: Tree, c2: Tree)
    ensures
        merged(merged(t.model(), grafted(c1.name@, c1.model())), grafted(c2.name@, c2.model())) == merged(
            merged(t.model(), grafted(c2.name@, c2.model())),
            grafted(c1.name@, c1.model()),
        ),
{
    lemma_merge_order_independent(t.model(), grafted(c1.name@, c1.model()), grafted(c2.name@, c2.model()));
}

/// Merging two trees' meanings into a third gives the same meaning in either order.
pub proof fn lemma_merge_order_independent(t: TreeModel, a: TreeModel, b: TreeModel)
    ensures
        merged(merged(t, a), b) == merged(merged(t, b), a),
{
    let l = merged(merged(t, a), b);
    let r = merged(merged(t, b), a);
    assert forall|p: Seq<Seq<char>>| #[trigger] l.contains_key(p) implies l[p] =~= r[p] by {}
    assert(l =~= r);
}

/// Every key of the meaning of a node list is the path of one of its nodes.
pub proof fn lemma_model_keys_only(nodes: Seq<TreeNode>, p: Seq<Seq<char>>)
    requires
        model_of(nodes).contains_key(p),
    ensures
        exists|j: int| 0 <= j < nodes.len() && node_path(#[trigger] nodes[j]) == p,
    decreases nodes.len(),
{
    if node_path(nodes.last()) != p {
        lemma_model_keys_only(nodes.drop_last(), p);
        let j = choose|j: int| 0 <= j < nodes.drop_last().len() && node_path(#[trigger] nodes.drop_last()[j]) == p;
        assert(nodes[j] == nodes.drop_last()[j]);
    } else {
        assert(node_path(nodes[nodes.len() - 1]) == p);
    }
}

/// Keys of the meaning of a node list are exactly the nodes' paths.
pub proof fn lemma_model_keys(nodes: Seq<TreeNode>, i: int)
    requires
        0 <= i < nodes.len(),
    ensures
        model_of(nodes).contains_key(node_path(nodes[i])),
    decreases nodes.len(),
{
    if i < nodes.len() - 1 {
        lemma_model_keys(nodes.drop_last(), i);
    }
}

/// Every node of `a` is in `b`, with at least its links.
pub open spec fn covers(a: TreeModel, b: TreeModel) -> bool {
    forall|p: Seq<Seq<char>>| #[trigger] a.contains_key(p) ==> b.contains_key(p) && a[p].subset_of(b[p])
}

/// The links of a node path are those of the entries with that path.
proof fn lemma_model_value(nodes: Seq<TreeNode>, p: Seq<Seq<char>>, v: LinkView)
    requires
        model_of(nodes).contains_key(p),
    ensures
        model_of(nodes)[p].contains(v) <==> exists|j: int| 0 <= j < nodes.len() && node_path(nodes[j]) == p
            && #[trigger] link_set(nodes[j].contents@).contains(v),
    decreases nodes.len(),
{
    let init = nodes.drop_last();
    let last = nodes.last();
    let m0 = model_of(init);
    if m0.contains_key(p) {
        lemma_model_value(init, p, v);
    }
    if model_of(nodes)[p].contains(v) {
        if node_path(last) == p && link_set(last.contents@).contains(v) {
            assert(node_path(nodes[nodes.len() - 1]) == p && link_set(nodes[nodes.len() - 1].contents@).contains(v));
        } else {
            let j = choose|j: int| 0 <= j < init.len() && node_path(init[j]) == p && #[trigger] link_set(init[j].contents@).contains(v);
            assert(nodes[j] == init[j]);
        }
    }
    if exists|j: int| 0 <= j < nodes.len() && node_path(nodes[j]) == p && #[trigger] link_set(nodes[j].contents@).contains(v) {
        let j = choose|j: int| 0 <= j < nodes.len() && node_path(nodes[j]) == p && #[trigger] link_set(nodes[j].contents@).contains(v);
        if j < nodes.len() - 1 {
            assert(init[j] == nodes[j]);
            lemma_model_keys(init, j);
        }
    }
}

fn same_path(a: &Vec<String>, b: &Vec<String>) -> (r: bool)
    ensures
        r == (names_view(a@) == names_view(b@)),
{
    if a.len() != b.len() {
        assert(names_view(a@).len() != names_view(b@).len());
        return false;
    }
    let mut i: usize = 0;
    while i < a.len()
        invariant
            a.len() == b.len(),
            i <= a.len(),
            forall|j: int| 0 <= j < i ==> a@[j]@ == b@[j]@,
        decreases a.len() - i,
    {
        let x = chars_of(a[i].as_str());
        let y = chars_of(b[i].as_str());
        if !same(&x, &y) {
            assert(names_view(a@)[i as int] != names_view(b@)[i as int]);
            return false;
        }
        i = i + 1;
    }
    assert(names_view(a@) =~= names_view(b@));
    true
}

/// Whether some entry of `nodes` has the path `path`.
fn has_path(nodes: &Vec<TreeNode>, path: &Vec<String>) -> (r: bool)
    ensures
        r == exists|j: int| 0 <= j < nodes@.len() && #[trigger] node_path(nodes@[j]) == names_view(path@),
{
    let mut j: usize = 0;
    while j < nodes.len()
        invariant
            j <= nodes.len(),
            forall|q: int| 0 <= q < j ==> #[trigger] node_path(nodes@[q]) != names_view(path@),
        decreases nodes.len() - j,
    {
        if same_path(&nodes[j].path, path) {
            assert(node_path(nodes@[j as int]) == names_view(path@));
            return true;
        }
        j = j + 1;
    }
    false
}

/// Whether some entry of `nodes` with the path `path` holds a link equal to `link`.
fn has_link_at(nodes: &Vec<TreeNode>, path: &Vec<String>, link: &Link) -> (r: bool)
    ensures
        r == exists|j: int| 0 <= j < nodes@.len() && node_path(nodes@[j]) == names_view(path@)
            && #[trigger] link_set(nodes@[j].contents@).contains(link_view(*link)),
{
    let mut j: usize = 0;
    while j < nodes.len()
        invariant
            j <= nodes.len(),
            forall|q: int| 0 <= q < j ==> !(node_path(nodes@[q]) == names_view(path@)
                && #[trigger] link_set(nodes@[q].contents@).contains(link_view(*link))),
        decreases nodes.len() - j,
    {
        if same_path(&nodes[j].path, path) {
            let mut k: usize = 0;
            while k < nodes[j].contents.len()
                invariant
                    j < nodes@.len(),
                    node_path(nodes@[j as int]) == names_view(path@),
                    k <= nodes@[j as int].contents@.len(),
                    forall|q: int| 0 <= q < k ==> link_view(nodes@[j as int].contents@[q]) != link_view(*link),
                decreases nodes@[j as int].contents@.len() - k,
            {
                if crate::exporter::same_link(&nodes[j].contents[k], link) {
                    assert(link_view(nodes@[j as int].contents@[k as int]) == link_view(*link));
                    assert(link_set(nodes@[j as int].contents@).contains(link_view(*link)));
                    return true;
                }
                k = k + 1;
            }
            assert(!link_set(nodes@[j as int].contents@).contains(link_view(*link)));
        }
        j = j + 1;
    }
    false
}

/// Whether the meaning of `a` is contained in that of `b`.
pub fn covers_exec(a: &Tree, b: &Tree) -> (r: bool)
    ensures
        r == covers(a.model(), b.model()),
{
    let mut i: usize = 0;
    while i < a.nodes.len()
        invariant
            i <= a.nodes.len(),
            forall|q: int| 0 <= q < i ==> #[trigger] model_of(b.nodes@).contains_key(node_path(a.nodes@[q])),
            forall|q: int, v: LinkView| 0 <= q < i && #[trigger] link_set(a.nodes@[q].contents@).contains(v) ==>
                model_of(b.nodes@).contains_key(node_path(a.nodes@[q])) && model_of(b.nodes@)[node_path(a.nodes@[q])].contains(v),
        decreases a.nodes.len() - i,
    {
        let path = &a.nodes[i].path;
        if !has_path(&b.nodes, path) {
            proof {
                lemma_model_keys(a.nodes@, i as int);
                if model_of(b.nodes@).contains_key(node_path(a.nodes@[i as int])) {
                    lemma_model_keys_only(b.nodes@, node_path(a.nodes@[i as int]));
                }
                assert(!covers(a.model(), b.model()));
            }
            return false;
        }
        proof {
            let j = choose|j: int| 0 <= j < b.nodes@.len() && #[trigger] node_path(b.nodes@[j]) == names_view(path@);
            lemma_model_keys(b.nodes@, j);
        }
        let mut k: usize = 0;
        while k < a.nodes[i].contents.len()
            invariant
                i < a.nodes@.len(),
                path == &a.nodes@[i as int].path,
                k <= a.nodes@[i as int].contents@.len(),
                model_of(b.nodes@).contains_key(node_path(a.nodes@[i as int])),
                forall|q: int| 0 <= q < k ==> model_of(b.nodes@)[node_path(a.nodes@[i as int])].contains(
                    link_view(#[trigger] a.nodes@[i as int].contents@[q])),
            decreases a.nodes@[i as int].contents@.len() - k,
        {
            let l = &a.nodes[i].contents[k];
            let found = has_link_at(&b.nodes, path, l);
            proof {
                lemma_model_value(b.nodes@, node_path(a.nodes@[i as int]), link_view(*l));
            }
            if !found {
                proof {
                    let p = node_path(a.nodes@[i as int]);
                    lemma_model_keys(a.nodes@, i as int);
                    assert(link_set(a.nodes@[i as int].contents@).contains(link_view(*l)));
                    lemma_model_value(a.nodes@, p, link_view(*l));
                    assert(model_of(a.nodes@)[p].contains(link_view(*l)));
                    assert(!covers(a.model(), b.model()));
                }
                return false;
            }
            k = k + 1;
        }
        proof {
            assert forall|v: LinkView| #[trigger] link_set(a.nodes@[i as int].contents@).contains(v) implies
                model_of(b.nodes@)[node_path(a.nodes@[i as int])].contains(v) by {
                let q = choose|q: int| 0 <= q < a.nodes@[i as int].contents@.len() && link_view(a.nodes@[i as int].contents@[q]) == v;
                assert(model_of(b.nodes@)[node_path(a.nodes@[i as int])].contains(link_view(a.nodes@[i as int].contents@[q])));
            }
        }
        i = i + 1;
    }
    proof {
        assert forall|p: Seq<Seq<char>>| #[trigger] a.model().contains_key(p) implies b.model().contains_key(p)
            && a.model()[p].subset_of(b.model()[p]) by {
            lemma_model_keys_only(a.nodes@, p);
            let q = choose|q: int| 0 <= q < a.nodes@.len() && node_path(#[trigger] a.nodes@[q]) == p;
            assert(model_of(b.nodes@).contains_key(node_path(a.nodes@[q])));
            assert forall|v: LinkView| a.model()[p].contains(v) implies b.model()[p].contains(v) by {
                lemma_model_value(a.nodes@, p, v);
                let j = choose|j: int| 0 <= j < a.nodes@.len() && node_path(a.nodes@[j]) == p
                    && #[trigger] link_set(a.nodes@[j].contents@).contains(v);
                assert(model_of(b.nodes@).contains_key(node_path(a.nodes@[j])));
            }
        }
    }
    true
}

impl PartialEq for Tree {
    /// Two trees are equal when their roots have the same name and they have
    /// the same nodes with the same links.
    fn eq(&self, other: &Tree) -> (r: bool) {
        let n1 = chars_of(self.name.as_str());
        let n2 = chars_of(other.name.as_str());
        let r = same(&n1, &n2) && covers_exec(self, other) && covers_exec(other, self);
        proof {
            if covers(self.model(), other.model()) && covers(other.model(), self.model()) {
                lemma_mutual_cover(self.model(), other.model());
            }
            if self.model() == other.model() {
                assert(covers(self.model(), other.model()));
            }
        }
        r
    }
}

impl vstd::std_specs::cmp::PartialEqSpecImpl for Tree {
    open spec fn obeys_eq_spec() -> bool {
        true
    }

    open spec fn eq_spec(&self, other: &Tree) -> bool {
        self.name@ == other.name@ && self.model() == other.model()
    }
}

proof fn lemma_mutual_cover(a: TreeModel, b: TreeModel)
    requires
        covers(a, b),
        covers(b, a),
    ensures
        a == b,
{
    assert forall|p: Seq<Seq<char>>| #[trigger] a.contains_key(p) implies a[p] =~= b[p] by {}
    assert(a =~= b);
}

/// Whether two paths of names are equal.
pub fn same_path_pub(a: &Vec<String>, b: &Vec<String>) -> (r: bool)
    ensures
        r == (names_view(a@) == names_view(b@)),
{
    same_path(a, b)
}

} // verus!
