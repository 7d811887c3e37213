//! The navigation list of the tag tree: every node below the root, children
//! in the order of their names.
use vstd::prelude::*;
use crate::link::Link;
use crate::tag_tree::{link_view, model_of, names_view, node_path, Tree, TreeModel, TreeNode};
use crate::text::{chars_of, push_all, push_str, string_of};

verus! {

/// Lexicographic order of texts by character code, a prefix first.
pub open spec fn lex_lt(a: Seq<char>, b: Seq<char>) -> bool
    decreases a.len(),
{
    if a.len() == 0 {
        b.len() > 0
    } else if b.len() == 0 {
        false
    } else if a[0] != b[0] {
        a[0] < b[0]
    } else {
        lex_lt(a.drop_first(), b.drop_first())
    }
}

pub open spec fn strictly_sorted(s: Seq<Seq<char>>) -> bool {
    forall|i: int, j: int| 0 <= i < j < s.len() ==> lex_lt(#[trigger] s[i], #[trigger] s[j])
}

proof fn lemma_lex_irrefl(a: Seq<char>)
    ensures
        !lex_lt(a, a),
    decreases a.len(),
{
    if a.len() > 0 {
        lemma_lex_irrefl(a.drop_first());
    }
}

proof fn lemma_lex_trans(a: Seq<char>, b: Seq<char>, c: Seq<char>)
    requires
        lex_lt(a, b),
        lex_lt(b, c),
    ensures
        lex_lt(a, c),
    decreases a.len(),
{
    if a.len() > 0 && b.len() > 0 && c.len() > 0 && a[0] == b[0] && b[0] == c[0] {
        lemma_lex_trans(a.drop_first(), b.drop_first(), c.drop_first());
    }
}

proof fn lemma_lex_total(a: Seq<char>, b: Seq<char>)
    requires
        a != b,
    ensures
        lex_lt(a, b) || lex_lt(b, a),
    decreases a.len(),
{
    if a.len() > 0 && b.len() > 0 && a[0] == b[0] {
        if a.drop_first() == b.drop_first() {
            assert(a =~= seq![a[0]] + a.drop_first());
            assert(b =~= seq![b[0]] + b.drop_first());
        }
        lemma_lex_total(a.drop_first(), b.drop_first());
    } else if a.len() == 0 && b.len() == 0 {
        assert(a =~= b);
    }
}

/// Two strictly sorted sequences with the same elements are equal.
proof fn lemma_sorted_unique(s1: Seq<Seq<char>>, s2: Seq<Seq<char>>)
    requires
        strictly_sorted(s1),
        strictly_sorted(s2),
        s1.to_set() == s2.to_set(),
    ensures
        s1 == s2,
    decreases s1.len(),
{
    if s1.len() == 0 {
        if s2.len() > 0 {
            assert(s2.to_set().contains(s2[0]));
        }
        assert(s1 =~= s2);
    } else {
        assert(s1.to_set().contains(s1[0]));
        assert(s2.len() > 0);
        assert(s2.to_set().contains(s2[0]));
        let j = choose|j: int| 0 <= j < s2.len() && s2[j] == s1[0];
        let i = choose|i: int| 0 <= i < s1.len() && s1[i] == s2[0];
        if j > 0 {
            assert(lex_lt(s2[0], s2[j]));
            if i == 0 {
                lemma_lex_irrefl(s1[0]);
            } else {
                assert(lex_lt(s1[0], s1[i]));
                lemma_lex_trans(s1[0], s1[i], s1[0]);
                lemma_lex_irrefl(s1[0]);
            }
        }
        assert(s1[0] == s2[0]);
        let t1 = s1.drop_first();
        let t2 = s2.drop_first();
        assert forall|i: int, k: int| 0 <= i < k < t1.len() implies lex_lt(#[trigger] t1[i], #[trigger] t1[k]) by {
            assert(lex_lt(s1[i + 1], s1[k + 1]));
        }
        assert forall|i: int, k: int| 0 <= i < k < t2.len() implies lex_lt(#[trigger] t2[i], #[trigger] t2[k]) by {
            assert(lex_lt(s2[i + 1], s2[k + 1]));
        }
        assert forall|x: Seq<char>| t1.to_set().contains(x) <==> t2.to_set().contains(x) by {
            if t1.to_set().contains(x) {
                let a = choose|a: int| 0 <= a < t1.len() && t1[a] == x;
                assert(s1[a + 1] == x);
                assert(s1.to_set().contains(x));
                let b = choose|b: int| 0 <= b < s2.len() && s2[b] == x;
                if b == 0 {
                    assert(lex_lt(s1[0], s1[a + 1]));
                    lemma_lex_irrefl(s1[0]);
                }
                assert(t2[b - 1] == x);
            }
            if t2.to_set().contains(x) {
                let a = choose|a: int| 0 <= a < t2.len() && t2[a] == x;
                assert(s2[a + 1] == x);
                assert(s2.to_set().contains(x));
                let b = choose|b: int| 0 <= b < s1.len() && s1[b] == x;
                if b == 0 {
                    assert(lex_lt(s2[0], s2[a + 1]));
                    lemma_lex_irrefl(s2[0]);
                }
                assert(t1[b - 1] == x);
            }
        }
        assert(t1.to_set() =~= t2.to_set());
        lemma_sorted_unique(t1, t2);
        assert(s1 =~= seq![s1[0]] + t1);
        assert(s2 =~= seq![s2[0]] + t2);
    }
}

/// Whether `a` comes before `b`.
pub fn lex_less(a: &Vec<char>, b: &Vec<char>) -> (r: bool)
    ensures
        r == lex_lt(a@, b@),
{
    let mut i: usize = 0;
    assert(a@.subrange(0, a@.len() as int) =~= a@);
    assert(b@.subrange(0, b@.len() as int) =~= b@);
    while i < a.len() && i < b.len() && a[i] == b[i]
        invariant
            i <= a.len(),
            i <= b.len(),
            lex_lt(a@, b@) == lex_lt(a@.subrange(i as int, a@.len() as int), b@.subrange(i as int, b@.len() as int)),
        decreases a.len() - i,
    {
        proof {
            let x = a@.subrange(i as int, a@.len() as int);
            let y = b@.subrange(i as int, b@.len() as int);
            assert(x.drop_first() =~= a@.subrange(i + 1, a@.len() as int));
            assert(y.drop_first() =~= b@.subrange(i + 1, b@.len() as int));
        }
        i = i + 1;
    }
    proof {
        let x = a@.subrange(i as int, a@.len() as int);
        let y = b@.subrange(i as int, b@.len() as int);
        if i < a.len() && i < b.len() {
            assert(x[0] == a@[i as int] && y[0] == b@[i as int]);
        }
    }
    if i == a.len() {
        i < b.len()
    } else if i == b.len() {
        false
    } else {
        a[i] < b[i]
    }
}

/// The names of the children of the node at `p`.
pub open spec fn child_names(m: TreeModel, p: Seq<Seq<char>>) -> Set<Seq<char>> {
    Set::new(|n: Seq<char>| m.contains_key(p.push(n)))
}

/// The names of the children of the node at `p`, in order.
pub open spec fn sorted_children(m: TreeModel, p: Seq<Seq<char>>) -> Seq<Seq<char>> {
    choose|s: Seq<Seq<char>>| strictly_sorted(s) && s.to_set() == child_names(m, p)
}

/// Puts `x` into its place in the sorted `v`, unless it is there already.
fn insert_sorted(v: &mut Vec<Vec<char>>, x: Vec<char>)
    requires
        strictly_sorted(Seq::new(old(v)@.len(), |i: int| old(v)@[i]@)),
    ensures
        strictly_sorted(Seq::new(final(v)@.len(), |i: int| final(v)@[i]@)),
        Seq::new(final(v)@.len(), |i: int| final(v)@[i]@).to_set() == Seq::new(old(v)@.len(), |i: int| old(v)@[i]@).to_set().insert(x@),
{
    let ghost sv = Seq::new(v@.len(), |i: int| v@[i]@);
    let mut k: usize = 0;
    while k < v.len() && lex_less(&v[k], &x)
        invariant
            k <= v.len(),
            sv == Seq::new(v@.len(), |i: int| v@[i]@),
            forall|j: int| 0 <= j < k ==> lex_lt(#[trigger] sv[j], x@),
        decreases v.len() - k,
    {
        k = k + 1;
    }
    if k < v.len() && crate::text::same(&v[k], &x) {
        assert(sv.to_set().insert(x@) =~= sv.to_set()) by {
            assert(sv[k as int] == x@);
        }
        return;
    }
    let ghost xv = x@;
    v.insert(k, x);
    let ghost nv = Seq::new(v@.len(), |i: int| v@[i]@);
    assert(nv =~= sv.subrange(0, k as int) + seq![xv] + sv.subrange(k as int, sv.len() as int));
    assert forall|i: int, j: int| 0 <= i < j < nv.len() implies lex_lt(#[trigger] nv[i], #[trigger] nv[j]) by {
        if k < sv.len() {
            assert(!lex_lt(sv[k as int], xv));
            assert(sv[k as int] != xv);
            lemma_lex_total(sv[k as int], xv);
        }
        if i < k && j == k {
        } else if i < k && j > k {
            if j - 1 > k {
                assert(lex_lt(sv[k as int], sv[j - 1]));
                lemma_lex_trans(xv, sv[k as int], sv[j - 1]);
            }
            lemma_lex_trans(sv[i], xv, sv[j - 1]);
        } else if i == k {
            if j - 1 > k {
                assert(lex_lt(sv[k as int], sv[j - 1]));
                lemma_lex_trans(xv, sv[k as int], sv[j - 1]);
            }
        } else if j < k {
        } else {
            assert(lex_lt(sv[i - 1], sv[j - 1]));
        }
    }
    assert forall|y: Seq<char>| nv.to_set().contains(y) <==> sv.to_set().insert(xv).contains(y) by {
        if nv.to_set().contains(y) {
            let a = choose|a: int| 0 <= a < nv.len() && nv[a] == y;
            if a < k {
                assert(sv[a] == y);
            } else if a > k {
                assert(sv[a - 1] == y);
            }
        }
        if sv.to_set().contains(y) {
            let a = choose|a: int| 0 <= a < sv.len() && sv[a] == y;
            if a < k {
                assert(nv[a] == y);
            } else {
                assert(nv[a + 1] == y);
            }
        }
        if y == xv {
            assert(nv[k as int] == y);
        }
    }
    assert(nv.to_set() =~= sv.to_set().insert(xv));
}

/// Whether the path `q` names a child of the node at `p`.
pub open spec fn is_child(q: Seq<Seq<char>>, p: Seq<Seq<char>>) -> bool {
    q.len() == p.len() + 1 && q.subrange(0, p.len() as int) == p
}

/// The names of the children of `p` among the first `i` entries.
pub open spec fn child_names_upto(nodes: Seq<TreeNode>, p: Seq<Seq<char>>, i: int) -> Set<Seq<char>> {
    Set::new(|n: Seq<char>| exists|j: int| 0 <= j < i && is_child(node_path(nodes[j]), p) && node_path(nodes[j]).last() == n)
}

fn is_child_path(q: &Vec<String>, p: &Vec<String>) -> (r: bool)
    ensures
        r == is_child(names_view(q@), names_view(p@)),
{
    if q.len() == 0 || q.len() - 1 != p.len() {
        return false;
    }
    let mut i: usize = 0;
    while i < p.len()
        invariant
            q.len() == p.len() + 1,
            i <= p.len(),
            forall|j: int| 0 <= j < i ==> q@[j]@ == p@[j]@,
        decreases p.len() - i,
    {
        let a = chars_of(q[i].as_str());
        let b = chars_of(p[i].as_str());
        if !crate::text::same(&a, &b) {
            assert(names_view(q@).subrange(0, p@.len() as int)[i as int] != names_view(p@)[i as int]);
            return false;
        }
        i = i + 1;
    }
    assert(names_view(q@).subrange(0, p@.len() as int) =~= names_view(p@));
    true
}

impl Tree {
    /// The names of the children of the node at `prefix`, in order.
    pub fn children(&self, prefix: &Vec<String>) -> (r: Vec<String>)
        ensures
            names_view(r@) == sorted_children(self.model(), names_view(prefix@)),
    {
        let ghost p = names_view(prefix@);
        let mut out: Vec<Vec<char>> = Vec::new();
        let mut i: usize = 0;
        while i < self.nodes.len()
            invariant
                i <= self.nodes.len(),
                p == names_view(prefix@),
                strictly_sorted(Seq::new(out@.len(), |k: int| out@[k]@)),
                Seq::new(out@.len(), |k: int| out@[k]@).to_set() == child_names_upto(self.nodes@, p, i as int),
            decreases self.nodes.len() - i,
        {
            let ghost before = Seq::new(out@.len(), |k: int| out@[k]@).to_set();
            if is_child_path(&self.nodes[i].path, prefix) {
                let q = &self.nodes[i].path;
                let last = chars_of(q[q.len() - 1].as_str());
                assert(last@ == node_path(self.nodes@[i as int]).last());
                insert_sorted(&mut out, last);
                assert(child_names_upto(self.nodes@, p, i + 1) =~= before.insert(node_path(self.nodes@[i as int]).last()));
            } else {
                assert(child_names_upto(self.nodes@, p, i + 1) =~= before);
            }
            i = i + 1;
        }
        let ghost sv = Seq::new(out@.len(), |k: int| out@[k]@);
        proof {
            assert forall|n: Seq<char>| child_names_upto(self.nodes@, p, self.nodes@.len() as int).contains(n) <==> child_names(self.model(), p).contains(n) by {
                if child_names_upto(self.nodes@, p, self.nodes@.len() as int).contains(n) {
                    let j = choose|j: int| 0 <= j < self.nodes@.len() && is_child(node_path(self.nodes@[j]), p) && node_path(self.nodes@[j]).last() == n;
                    let q = node_path(self.nodes@[j]);
                    assert(q =~= p.push(n));
                    crate::tag_tree::lemma_model_keys(self.nodes@, j);
                }
                if child_names(self.model(), p).contains(n) {
                    crate::tag_tree::lemma_model_keys_only(self.nodes@, p.push(n));
                    let j = choose|j: int| 0 <= j < self.nodes@.len() && node_path(#[trigger] self.nodes@[j]) == p.push(n);
                    assert(p.push(n).subrange(0, p.len() as int) =~= p);
                    assert(is_child(node_path(self.nodes@[j]), p));
                }
            }
            assert(sv.to_set() =~= child_names(self.model(), p));
            let c = sorted_children(self.model(), p);
            assert(strictly_sorted(c) && c.to_set() == child_names(self.model(), p));
            lemma_sorted_unique(sv, c);
        }
        let mut names: Vec<String> = Vec::new();
        let mut k: usize = 0;
        while k < out.len()
            invariant
                k <= out.len(),
                sv == Seq::new(out@.len(), |k: int| out@[k]@),
                names_view(names@) =~= sv.subrange(0, k as int),
            decreases out.len() - k,
        {
            let ghost n0 = names@;
            let x = string_of(&out[k]);
            names.push(x);
            proof { crate::tag_tree::lemma_names_push(n0, x); }
            k = k + 1;
        }
        assert(sv.subrange(0, sv.len() as int) =~= sv);
        names
    }
}

/// Whether `q` lies in the subtree of `p`.
pub open spec fn is_below(q: Seq<Seq<char>>, p: Seq<Seq<char>>) -> bool {
    q.len() >= p.len() && q.subrange(0, p.len() as int) == p
}

/// Number of links over the entries in the subtree of `p`, counting each
/// link at each entry, stopping at the largest `u64`.
pub open spec fn count_below(nodes: Seq<TreeNode>, p: Seq<Seq<char>>) -> nat
    decreases nodes.len(),
{
    if nodes.len() == 0 {
        0
    } else {
        let prev = count_below(nodes.drop_last(), p);
        let add: nat = if is_below(node_path(nodes.last()), p) { nodes.last().contents@.len() } else { 0 };
        if prev + add > u64::MAX { u64::MAX as nat } else { prev + add }
    }
}

/// Longest node path.
pub open spec fn max_depth(nodes: Seq<TreeNode>) -> nat
    decreases nodes.len(),
{
    if nodes.len() == 0 {
        0
    } else {
        let prev = max_depth(nodes.drop_last());
        let d = node_path(nodes.last()).len();
        if d > prev { d } else { prev }
    }
}

/// A block element without attributes.
pub open spec fn block(tag: Seq<char>, content: Seq<char>) -> Seq<char> {
    "<"@ + tag + ">"@ + "\n"@ + content + "\n"@ + "</"@ + tag + ">"@
}

/// The badge with the number of notes below a tag.
pub open spec fn count_badge(c: nat) -> Seq<char> {
    "<span class=\"tag-count\" style=\"float: right\">"@ + " "@ + crate::sanitization::decimal(c) + " "@ + "</span>"@
}

/// Attributes of a navigation list: the outermost one is marked.
pub open spec fn nav_options(nested: bool) -> Seq<char> {
    if nested { Seq::empty() } else { "class=\"nav_tag_list\" id=\"nav_tag_list\""@ }
}

/// The line of a node in the navigation: a link to its tag page and its note
/// count; the root shows its name only.
pub open spec fn nav_entry(nodes: Seq<TreeNode>, p: Seq<Seq<char>>, name: Seq<char>, nested: bool, base: Seq<char>) -> Seq<char> {
    if nested {
        crate::html::link_element(crate::paths::with_slash(crate::paths::join(base, crate::formatting::tag_page_name(name))), name, Seq::empty())
            + count_badge(count_below(nodes, p))
    } else {
        name
    }
}

/// The navigation entry of the node at `p`, named `name`: its line, and,
/// when it has children, a collapsible list of theirs in the order of their
/// names.
pub open spec fn nav_html(nodes: Seq<TreeNode>, p: Seq<Seq<char>>, name: Seq<char>, nested: bool, base: Seq<char>, fuel: nat) -> Seq<char>
    decreases fuel, 0nat,
{
    let entry = nav_entry(nodes, p, name, nested, base);
    let kids = sorted_children(model_of(nodes), p);
    let child_base = if nested { crate::paths::join(base, name) } else { base };
    if kids.len() == 0 || fuel == 0 {
        entry
    } else {
        details_markup(entry, crate::html::raw_element(
            crate::html::list_items(nav_list(nodes, p, kids, child_base, (fuel - 1) as nat)),
            "ul"@,
            nav_options(nested),
        ))
    }
}

/// The navigation entries of the children `kids` of `p`.
pub open spec fn nav_list(nodes: Seq<TreeNode>, p: Seq<Seq<char>>, kids: Seq<Seq<char>>, base: Seq<char>, fuel: nat) -> Seq<Seq<char>>
    decreases fuel, kids.len(),
{
    if kids.len() == 0 {
        Seq::empty()
    } else {
        nav_list(nodes, p, kids.drop_last(), base, fuel).push(nav_html(nodes, p.push(kids.last()), kids.last(), true, base, fuel))
    }
}

fn count_entries(nodes: &Vec<TreeNode>, p: &Vec<String>) -> (r: u64)
    ensures
        r as nat == count_below(nodes@, names_view(p@)),
{
    let mut total: u64 = 0;
    let mut i: usize = 0;
    while i < nodes.len()
        invariant
            i <= nodes.len(),
            total as nat == count_below(nodes@.subrange(0, i as int), names_view(p@)),
        decreases nodes.len() - i,
    {
        proof {
            let pre = nodes@.subrange(0, i + 1);
            assert(pre.drop_last() =~= nodes@.subrange(0, i as int));
        }
        let below = is_below_path(&nodes[i].path, p);
        let add: u64 = if below { nodes[i].contents.len() as u64 } else { 0 };
        total = if total > u64::MAX - add { u64::MAX } else { total + add };
        i = i + 1;
    }
    assert(nodes@.subrange(0, nodes@.len() as int) =~= nodes@);
    total
}

fn is_below_path(q: &Vec<String>, p: &Vec<String>) -> (r: bool)
    ensures
        r == is_below(names_view(q@), names_view(p@)),
{
    if q.len() < p.len() {
        return false;
    }
    let mut i: usize = 0;
    while i < p.len()
        invariant
            q.len() >= p.len(),
            i <= p.len(),
            forall|j: int| 0 <= j < i ==> q@[j]@ == p@[j]@,
        decreases p.len() - i,
    {
        let a = chars_of(q[i].as_str());
        let b = chars_of(p[i].as_str());
        if !crate::text::same(&a, &b) {
            assert(names_view(q@).subrange(0, p@.len() as int)[i as int] != names_view(p@)[i as int]);
            return false;
        }
        i = i + 1;
    }
    assert(names_view(q@).subrange(0, p@.len() as int) =~= names_view(p@));
    true
}

fn depth_of(nodes: &Vec<TreeNode>) -> (r: usize)
    ensures
        r as nat == max_depth(nodes@),
{
    let mut d: usize = 0;
    let mut i: usize = 0;
    while i < nodes.len()
        invariant
            i <= nodes.len(),
            d as nat == max_depth(nodes@.subrange(0, i as int)),
        decreases nodes.len() - i,
    {
        proof {
            let pre = nodes@.subrange(0, i + 1);
            assert(pre.drop_last() =~= nodes@.subrange(0, i as int));
        }
        if nodes[i].path.len() > d {
            d = nodes[i].path.len();
        }
        i = i + 1;
    }
    assert(nodes@.subrange(0, nodes@.len() as int) =~= nodes@);
    d
}

impl Tree {
    fn nav_line(&self, prefix: &Vec<String>, name: &str, nested: bool, base: &str) -> (r: Vec<char>)
        ensures
            r@ == nav_entry(self.nodes@, names_view(prefix@), name@, nested, base@),
    {
        let mut entry: Vec<char> = Vec::new();
        if nested {
            let page = crate::formatting::generate_tag_page_name(name);
            let target = crate::paths::slash_prefixed(&crate::paths::join_paths(&chars_of(base), &chars_of(page.as_str())));
            let link = crate::html::link(string_of(&target).as_str(), name, "");
            push_str(&mut entry, link.as_str());
            push_str(&mut entry, "<span class=\"tag-count\" style=\"float: right\">");
            push_str(&mut entry, " ");
            crate::sanitization::push_decimal(&mut entry, count_entries(&self.nodes, prefix));
            push_str(&mut entry, " ");
            push_str(&mut entry, "</span>");
            proof { reveal_strlit(""); }
            assert(""@ =~= Seq::<char>::empty());
        } else {
            push_str(&mut entry, name);
        }
        entry
    }

    /// `prefix` with `name` added.
    fn child_path(prefix: &Vec<String>, name: &String) -> (r: Vec<String>)
        ensures
            names_view(r@) == names_view(prefix@).push(name@),
    {
        let mut sub: Vec<String> = Vec::new();
        let mut q: usize = 0;
        while q < prefix.len()
            invariant
                q <= prefix.len(),
                names_view(sub@) =~= names_view(prefix@).subrange(0, q as int),
            decreases prefix.len() - q,
        {
            let ghost s0 = sub@;
            let x = prefix[q].clone();
            sub.push(x);
            proof { crate::tag_tree::lemma_names_push(s0, x); }
            q = q + 1;
        }
        let ghost s1 = sub@;
        let x = name.clone();
        sub.push(x);
        proof {
            crate::tag_tree::lemma_names_push(s1, x);
            assert(names_view(prefix@).subrange(0, prefix@.len() as int) =~= names_view(prefix@));
        }
        sub
    }

    fn nav(&self, prefix: &Vec<String>, name: &str, nested: bool, base: &str, fuel: usize) -> (r: String)
        ensures
            r@ == nav_html(self.nodes@, names_view(prefix@), name@, nested, base@, fuel as nat),
        decreases fuel,
    {
        let entry = self.nav_line(prefix, name, nested, base);
        let kids = self.children(prefix);
        if kids.len() == 0 || fuel == 0 {
            assert(names_view(kids@).len() == kids@.len());
            return string_of(&entry);
        }
        let child_base = if nested {
            string_of(&crate::paths::join_paths(&chars_of(base), &chars_of(name)))
        } else {
            base.to_owned()
        };
        let ghost p = names_view(prefix@);
        let ghost kv = names_view(kids@);
        let mut items: Vec<String> = Vec::new();
        let mut i: usize = 0;
        while i < kids.len()
            invariant
                i <= kids.len(),
                fuel > 0,
                p == names_view(prefix@),
                kv == names_view(kids@),
                crate::html::strings_view(items@) == nav_list(self.nodes@, p, kv.subrange(0, i as int), child_base@, (fuel - 1) as nat),
            decreases kids.len() - i,
        {
            let sub = Self::child_path(prefix, &kids[i]);
            let item = self.nav(&sub, kids[i].as_str(), true, child_base.as_str(), fuel - 1);
            let ghost i0 = items@;
            items.push(item);
            proof {
                let pre = kv.subrange(0, i + 1);
                assert(pre.drop_last() =~= kv.subrange(0, i as int));
                assert(pre.last() == kv[i as int]);
                assert(crate::html::strings_view(items@) =~= crate::html::strings_view(i0).push(item@));
            }
            i = i + 1;
        }
        let options = if nested { "" } else { "class=\"nav_tag_list\" id=\"nav_tag_list\"" };
        proof { reveal_strlit(""); }
        assert(options@ == nav_options(nested));
        let list = crate::html::ul(&items, options);
        let out = details_with(&entry, &list);
        proof {
            assert(kv.subrange(0, kv.len() as int) =~= kv);
            assert(kv == sorted_children(model_of(self.nodes@), p));
        }
        string_of(&out)
    }

    /// The navigation list of the tags: the root's name, then each tag with a
    /// link to its page and its note count, children in the order of their
    /// names. Pages lie below `tags`.
    pub fn to_html(&self) -> (r: String)
        ensures
            r@ == nav_html(self.nodes@, Seq::empty(), self.name@, false, "tags"@, max_depth(self.nodes@)),
    {
        let d = depth_of(&self.nodes);
        let root: Vec<String> = Vec::new();
        assert(names_view(root@) =~= Seq::<Seq<char>>::empty());
        self.nav(&root, self.name.as_str(), false, "tags", d)
    }
}

/// A `details` element whose `summary` is `entry`, followed by `list`.
pub open spec fn details_markup(entry: Seq<char>, list: Seq<char>) -> Seq<char> {
    block("details"@, block("summary"@, entry) + list)
}

fn details_with(entry: &Vec<char>, list: &String) -> (r: Vec<char>)
    ensures
        r@ == details_markup(entry@, list@),
{
    let mut out: Vec<char> = Vec::new();
    push_str(&mut out, "<");
    push_str(&mut out, "details");
    push_str(&mut out, ">");
    push_str(&mut out, "\n");
    push_str(&mut out, "<");
    push_str(&mut out, "summary");
    push_str(&mut out, ">");
    push_str(&mut out, "\n");
    push_all(&mut out, entry);
    push_str(&mut out, "\n");
    push_str(&mut out, "</");
    push_str(&mut out, "summary");
    push_str(&mut out, ">");
    push_str(&mut out, list.as_str());
    push_str(&mut out, "\n");
    push_str(&mut out, "</");
    push_str(&mut out, "details");
    push_str(&mut out, ">");
    assert(out@ =~= details_markup(entry@, list@));
    out
}

/// `prev` with the links of `ls` that it does not hold yet, in order.
pub open spec fn add_new_links(prev: Seq<Link>, ls: Seq<Link>) -> Seq<Link>
    decreases ls.len(),
{
    if ls.len() == 0 {
        prev
    } else {
        let pr = add_new_links(prev, ls.drop_last());
        if exists|j: int| 0 <= j < pr.len() && link_view(pr[j]) == link_view(ls.last()) {
            pr
        } else {
            pr.push(ls.last())
        }
    }
}

/// The links of the node at `p`, each once, in the order its entries hold them.
pub open spec fn links_at(nodes: Seq<TreeNode>, p: Seq<Seq<char>>) -> Seq<Link>
    decreases nodes.len(),
{
    if nodes.len() == 0 {
        Seq::empty()
    } else {
        let prev = links_at(nodes.drop_last(), p);
        if node_path(nodes.last()) == p { add_new_links(prev, nodes.last().contents@) } else { prev }
    }
}

/// The directories of a path of names: each name followed by `/`.
pub open spec fn dirs_of(q: Seq<Seq<char>>) -> Seq<char>
    decreases q.len(),
{
    if q.len() == 0 { Seq::empty() } else { dirs_of(q.drop_last()) + q.last() + seq!['/'] }
}

/// Where the index page of the tag at `p` lies below `base`.
pub open spec fn page_path(base: Seq<char>, p: Seq<Seq<char>>) -> Seq<char> {
    crate::paths::join(base, dirs_of(p.drop_last()) + crate::formatting::tag_page_name(p.last()))
}

/// Names joined by ` / `.
pub open spec fn slash_joined(q: Seq<Seq<char>>) -> Seq<char>
    decreases q.len(),
{
    if q.len() == 0 { Seq::empty() } else if q.len() == 1 { q[0] } else { slash_joined(q.drop_last()) + " / "@ + q.last() }
}

/// Links to the pages of the tags above the tag at `p`, then its name.
pub open spec fn crumbs(base: Seq<char>, p: Seq<Seq<char>>) -> Seq<Seq<char>> {
    Seq::new((p.len() - 1) as nat, |k: int| crate::html::link_element(crate::paths::with_slash(page_path(base, p.subrange(0, k + 1))), p[k], Seq::empty()))
        .push(p.last())
}

/// The index page of the tag at `p`: its heading, the path of tags above it,
/// and the links to its notes, in the template.
pub open spec fn page_html(nodes: Seq<TreeNode>, p: Seq<Seq<char>>, base: Seq<char>, template: Seq<char>) -> Seq<char> {
    let links = links_at(nodes, p);
    let content = block("h1"@, "Index of "@ + p.last())
        + crate::html::raw_element(crate::html::list_items(crumbs(base, p)), "ul"@, "class=\"breadcrumbs\""@)
        + crate::html::raw_element(
            crate::html::list_items(Seq::new(links.len(), |i: int| crate::formatting::rendered(links[i], true))),
            "ul"@,
            "class=\"tag_list\""@,
        );
    let title = "Tag - "@ + slash_joined(p.drop_last()) + " / "@ + p.last();
    crate::text::replaced(crate::text::replaced(crate::text::replaced(template, "{{content}}"@, content), "{{backlinks}}"@, Seq::empty()), "{{title}}"@, title)
}

/// The index pages of the tag at `p` and of every tag below it, children in
/// the order of their names; the root has no page.
pub open spec fn tree_pages(nodes: Seq<TreeNode>, p: Seq<Seq<char>>, base: Seq<char>, template: Seq<char>, fuel: nat) -> Seq<(Seq<char>, Seq<char>)>
    decreases fuel, 0nat,
{
    let own = if p.len() > 0 { seq![(page_path(base, p), page_html(nodes, p, base, template))] } else { Seq::empty() };
    if fuel == 0 {
        own
    } else {
        own + pages_list(nodes, p, sorted_children(model_of(nodes), p), base, template, (fuel - 1) as nat)
    }
}

pub open spec fn pages_list(nodes: Seq<TreeNode>, p: Seq<Seq<char>>, kids: Seq<Seq<char>>, base: Seq<char>, template: Seq<char>, fuel: nat) -> Seq<(Seq<char>, Seq<char>)>
    decreases fuel, kids.len(),
{
    if kids.len() == 0 {
        Seq::empty()
    } else {
        pages_list(nodes, p, kids.drop_last(), base, template, fuel) + tree_pages(nodes, p.push(kids.last()), base, template, fuel)
    }
}

fn holds_link(v: &Vec<Link>, l: &Link) -> (r: bool)
    ensures
        r == exists|j: int| 0 <= j < v@.len() && link_view(v@[j]) == link_view(*l),
{
    let mut j: usize = 0;
    while j < v.len()
        invariant
            j <= v.len(),
            forall|q: int| 0 <= q < j ==> link_view(v@[q]) != link_view(*l),
        decreases v.len() - j,
    {
        if crate::exporter::same_link(&v[j], l) {
            return true;
        }
        j = j + 1;
    }
    false
}

pub open spec fn views_of(v: Seq<Link>) -> Seq<crate::tag_tree::LinkView> {
    Seq::new(v.len(), |i: int| link_view(v[i]))
}

impl Tree {
    /// The links of the node at `prefix`, each once.
    pub fn links_at_node(&self, prefix: &Vec<String>) -> (r: Vec<Link>)
        ensures
            views_of(r@) == views_of(links_at(self.nodes@, names_view(prefix@))),
    {
        let ghost p = names_view(prefix@);
        let mut out: Vec<Link> = Vec::new();
        let mut i: usize = 0;
        while i < self.nodes.len()
            invariant
                i <= self.nodes.len(),
                p == names_view(prefix@),
                views_of(out@) == views_of(links_at(self.nodes@.subrange(0, i as int), p)),
            decreases self.nodes.len() - i,
        {
            proof {
                let pre = self.nodes@.subrange(0, i + 1);
                assert(pre.drop_last() =~= self.nodes@.subrange(0, i as int));
            }
            if crate::tag_tree::same_path_pub(&self.nodes[i].path, prefix) {
                let ghost prev = links_at(self.nodes@.subrange(0, i as int), p);
                let ls = &self.nodes[i].contents;
                let mut k: usize = 0;
                while k < ls.len()
                    invariant
                        k <= ls.len(),
                        views_of(out@) == views_of(add_new_links(prev, ls@.subrange(0, k as int))),
                    decreases ls.len() - k,
                {
                    let ghost pr = add_new_links(prev, ls@.subrange(0, k as int));
                    proof {
                        let pre = ls@.subrange(0, k + 1);
                        assert(pre.drop_last() =~= ls@.subrange(0, k as int));
                        assert(pre.last() == ls@[k as int]);
                    }
                    let held = holds_link(&out, &ls[k]);
                    assert(views_of(out@).len() == views_of(pr).len());
                    assert(out@.len() == pr.len());
                    proof {
                        if held {
                            let j = choose|j: int| 0 <= j < out@.len() && link_view(out@[j]) == link_view(ls@[k as int]);
                            assert(views_of(out@)[j] == views_of(pr)[j]);
                        } else {
                            assert forall|j: int| 0 <= j < pr.len() implies link_view(pr[j]) != link_view(ls@[k as int]) by {
                                assert(views_of(out@)[j] == views_of(pr)[j]);
                            }
                        }
                    }
                    if !held {
                        let ghost o0 = out@;
                        let d = ls[k].duplicate();
                        assert(link_view(d) == link_view(ls@[k as int]));
                        out.push(d);
                        assert(views_of(out@) =~= views_of(o0).push(link_view(d)));
                        assert(views_of(pr.push(ls@[k as int])) =~= views_of(pr).push(link_view(ls@[k as int])));
                        assert(views_of(out@) =~= views_of(pr.push(ls@[k as int])));
                    }
                    k = k + 1;
                }
                assert(ls@.subrange(0, ls@.len() as int) =~= ls@);
            }
            i = i + 1;
        }
        assert(self.nodes@.subrange(0, self.nodes@.len() as int) =~= self.nodes@);
        out
    }
}

/// How a link renders depends on its fields' values alone.
proof fn lemma_rendered_by_view(a: Link, b: Link, to_html: bool)
    requires
        link_view(a) == link_view(b),
    ensures
        crate::formatting::rendered(a, to_html) == crate::formatting::rendered(b, to_html),
{
    assert(crate::link::link_text_of(a) == crate::link::link_text_of(b));
    assert(crate::formatting::note_href(a) == crate::formatting::note_href(b));
}

fn dirs_exec(q: &Vec<String>, n: usize) -> (r: Vec<char>)
    requires
        n <= q.len(),
    ensures
        r@ == dirs_of(names_view(q@).subrange(0, n as int)),
{
    let mut out: Vec<char> = Vec::new();
    let mut i: usize = 0;
    while i < n
        invariant
            i <= n <= q.len(),
            out@ == dirs_of(names_view(q@).subrange(0, i as int)),
        decreases n - i,
    {
        proof {
            let pre = names_view(q@).subrange(0, i + 1);
            assert(pre.drop_last() =~= names_view(q@).subrange(0, i as int));
        }
        push_str(&mut out, q[i].as_str());
        out.push('/');
        i = i + 1;
    }
    out
}

/// The index page path of the tag whose names are the first `n` of `q`.
fn page_path_exec(base: &str, q: &Vec<String>, n: usize) -> (r: Vec<char>)
    requires
        1 <= n <= q.len(),
    ensures
        r@ == page_path(base@, names_view(q@).subrange(0, n as int)),
{
    let mut rel = dirs_exec(q, n - 1);
    let page = crate::formatting::generate_tag_page_name(q[n - 1].as_str());
    push_str(&mut rel, page.as_str());
    proof {
        let pp = names_view(q@).subrange(0, n as int);
        assert(pp.drop_last() =~= names_view(q@).subrange(0, n - 1));
    }
    crate::paths::join_paths(&chars_of(base), &rel)
}

fn crumbs_exec(base: &str, q: &Vec<String>) -> (r: Vec<String>)
    requires
        q.len() >= 1,
    ensures
        crate::html::strings_view(r@) == crumbs(base@, names_view(q@)),
{
    let ghost p = names_view(q@);
    let mut out: Vec<String> = Vec::new();
    let mut k: usize = 0;
    proof { reveal_strlit(""); }
    while k + 1 < q.len()
        invariant
            k + 1 <= q.len(),
            p == names_view(q@),
            ""@ =~= Seq::<char>::empty(),
            crate::html::strings_view(out@) =~= Seq::new(k as nat, |j: int| crate::html::link_element(crate::paths::with_slash(page_path(base@, p.subrange(0, j + 1))), p[j], Seq::empty())),
        decreases q.len() - k,
    {
        let target = crate::paths::slash_prefixed(&page_path_exec(base, q, k + 1));
        let item = crate::html::link(string_of(&target).as_str(), q[k].as_str(), "");
        let ghost o0 = out@;
        out.push(item);
        assert(crate::html::strings_view(out@) =~= crate::html::strings_view(o0).push(item@));
        k = k + 1;
    }
    let ghost o1 = out@;
    out.push(q[q.len() - 1].clone());
    assert(crate::html::strings_view(out@) =~= crate::html::strings_view(o1).push(p.last()));
    out
}

fn slash_joined_exec(q: &Vec<String>, n: usize) -> (r: Vec<char>)
    requires
        n <= q.len(),
    ensures
        r@ == slash_joined(names_view(q@).subrange(0, n as int)),
{
    let mut out: Vec<char> = Vec::new();
    let mut i: usize = 0;
    while i < n
        invariant
            i <= n <= q.len(),
            out@ == slash_joined(names_view(q@).subrange(0, i as int)),
        decreases n - i,
    {
        proof {
            let pre = names_view(q@).subrange(0, i + 1);
            assert(pre.drop_last() =~= names_view(q@).subrange(0, i as int));
        }
        if i > 0 {
            push_str(&mut out, " / ");
        }
        push_str(&mut out, q[i].as_str());
        proof {
            if i == 0 {
                assert(out@ =~= names_view(q@).subrange(0, 1)[0]);
            }
        }
        i = i + 1;
    }
    out
}

impl Tree {
    /// The index page of the tag at `prefix` (not the root).
    pub fn index_page(&self, prefix: &Vec<String>, base: &str, template: &str) -> (r: String)
        requires
            prefix@.len() >= 1,
        ensures
            r@ == page_html(self.nodes@, names_view(prefix@), base@, template@),
    {
        let ghost p = names_view(prefix@);
        let name = prefix[prefix.len() - 1].as_str();
        let mut content: Vec<char> = Vec::new();
        push_str(&mut content, "<");
        push_str(&mut content, "h1");
        push_str(&mut content, ">");
        push_str(&mut content, "\n");
        push_str(&mut content, "Index of ");
        push_str(&mut content, name);
        push_str(&mut content, "\n");
        push_str(&mut content, "</");
        push_str(&mut content, "h1");
        push_str(&mut content, ">");
        assert(content@ =~= block("h1"@, "Index of "@ + p.last()));
        let crumb_items = crumbs_exec(base, prefix);
        let crumbs_html = crate::html::ul(&crumb_items, "class=\"breadcrumbs\"");
        push_str(&mut content, crumbs_html.as_str());
        let links = self.links_at_node(prefix);
        let ghost spec_links = links_at(self.nodes@, p);
        let mut items: Vec<String> = Vec::new();
        let mut i: usize = 0;
        assert(views_of(links@).len() == views_of(spec_links).len());
        while i < links.len()
            invariant
                i <= links.len(),
                links@.len() == spec_links.len(),
                views_of(links@) == views_of(spec_links),
                crate::html::strings_view(items@) =~= Seq::new(i as nat, |j: int| crate::formatting::rendered(spec_links[j], true)),
            decreases links.len() - i,
        {
            let item = crate::formatting::link_to_html(&links[i]);
            proof {
                assert(views_of(links@)[i as int] == views_of(spec_links)[i as int]);
                lemma_rendered_by_view(links@[i as int], spec_links[i as int], true);
            }
            let ghost o0 = items@;
            items.push(item);
            assert(crate::html::strings_view(items@) =~= crate::html::strings_view(o0).push(item@));
            i = i + 1;
        }
        assert(views_of(links@).len() == views_of(spec_links).len());
        let list = crate::html::ul(&items, "class=\"tag_list\"");
        push_str(&mut content, list.as_str());
        let mut title: Vec<char> = Vec::new();
        push_str(&mut title, "Tag - ");
        let parents = slash_joined_exec(prefix, prefix.len() - 1);
        push_all(&mut title, &parents);
        push_str(&mut title, " / ");
        push_str(&mut title, name);
        proof {
            assert(p.subrange(0, p.len() - 1) =~= p.drop_last());
        }
        let t0 = chars_of(template);
        let t1 = crate::text::replace_all(&t0, &chars_of("{{content}}"), &content);
        let t2 = crate::text::replace_all(&t1, &chars_of("{{backlinks}}"), &Vec::new());
        let t3 = crate::text::replace_all(&t2, &chars_of("{{title}}"), &title);
        string_of(&t3)
    }
}

pub open spec fn pages_view(v: Seq<(String, String)>) -> Seq<(Seq<char>, Seq<char>)> {
    Seq::new(v.len(), |i: int| (v[i].0@, v[i].1@))
}

impl Tree {
    fn pages_from(&self, prefix: &Vec<String>, base: &str, template: &str, fuel: usize) -> (r: Vec<(String, String)>)
        ensures
            pages_view(r@) == tree_pages(self.nodes@, names_view(prefix@), base@, template@, fuel as nat),
        decreases fuel,
    {
        let ghost p = names_view(prefix@);
        let mut out: Vec<(String, String)> = Vec::new();
        if prefix.len() > 0 {
            let path = string_of(&page_path_exec(base, prefix, prefix.len()));
            let html = self.index_page(prefix, base, template);
            assert(names_view(prefix@).subrange(0, prefix@.len() as int) =~= p);
            out.push((path, html));
        }
        let ghost own = pages_view(out@);
        assert(own =~= (if p.len() > 0 { seq![(page_path(base@, p), page_html(self.nodes@, p, base@, template@))] } else { Seq::empty() }));
        if fuel == 0 {
            return out;
        }
        let kids = self.children(prefix);
        let ghost kv = names_view(kids@);
        let mut i: usize = 0;
        assert(kv.subrange(0, 0) =~= Seq::<Seq<char>>::empty());
        assert(own + Seq::<(Seq<char>, Seq<char>)>::empty() =~= own);
        while i < kids.len()
            invariant
                i <= kids.len(),
                fuel > 0,
                p == names_view(prefix@),
                kv == names_view(kids@),
                pages_view(out@) == own + pages_list(self.nodes@, p, kv.subrange(0, i as int), base@, template@, (fuel - 1) as nat),
            decreases kids.len() - i,
        {
            let sub = Self::child_path(prefix, &kids[i]);
            let mut more = self.pages_from(&sub, base, template, fuel - 1);
            let ghost o0 = pages_view(out@);
            let ghost m0 = pages_view(more@);
            let ghost raw0 = out@;
            let ghost rawm = more@;
            out.append(&mut more);
            proof {
                assert(pages_view(out@) =~= o0 + m0) by {
                    assert(out@ =~= raw0 + rawm);
                }
                let pre = kv.subrange(0, i + 1);
                assert(pre.drop_last() =~= kv.subrange(0, i as int));
                assert(pre.last() == kv[i as int]);
            }
            i = i + 1;
        }
        assert(kv.subrange(0, kv.len() as int) =~= kv);
        out
    }

    /// The index pages of all tags, each with the path it goes to below
    /// `base`: parents before children, children in the order of their names.
    pub fn build_index_pages(&self, base: &str, template: &str) -> (r: Vec<(String, String)>)
        ensures
            pages_view(r@) == tree_pages(self.nodes@, Seq::empty(), base@, template@, max_depth(self.nodes@)),
    {
        let d = depth_of(&self.nodes);
        let root: Vec<String> = Vec::new();
        assert(names_view(root@) =~= Seq::<Seq<char>>::empty());
        self.pages_from(&root, base, template, d)
    }
}

} // verus!
