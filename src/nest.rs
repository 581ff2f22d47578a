//! Rebuilding nested documents from flat (dotted path, value) pairs.
//!
//! A document is an arena of nodes: node 0 is the root object, and every
//! other node names its parent (an earlier node) and its key under it. A
//! value written at a path is kept on the node that the path reaches; a node
//! may hold both a value and children, which is how a path that ends where a
//! longer path passes through is kept (the value then sits beside the
//! children under the key `value`).
use vstd::prelude::*;
use crate::dataset::{copy_value, FieldValue};
use crate::text::{
    dot_segments, first_index_some, lemma_first_index_ext, lemma_first_index_prefix,
    lemma_first_index_witness, split_dots, str_eq,
};

verus! {

#[derive(Debug, Clone)]
pub struct DocNode {
    pub key: String,
    pub parent: usize,
    pub value: Option<FieldValue>,
}

#[derive(Debug, Clone)]
pub struct Document {
    pub nodes: Vec<DocNode>,
}

/// Node 0 is the root; every other node's parent comes before it.
pub open spec fn nodes_wf(nodes: Seq<DocNode>) -> bool {
    nodes.len() >= 1 && forall|j: int| 1 <= j < nodes.len() ==> (#[trigger] nodes[j]).parent < j
}

pub open spec fn child_pick(nodes: Seq<DocNode>, p: int, key: Seq<char>) -> spec_fn(int) -> Option<int> {
    |j: int| if j >= 1 && nodes[j].parent == p && nodes[j].key@ == key { Some(j) } else { None }
}

/// The first child of node `p` under `key`.
pub open spec fn child_of(nodes: Seq<DocNode>, p: int, key: Seq<char>) -> Option<int> {
    first_index_some(nodes.len() as int, child_pick(nodes, p, key))
}

/// The node that a path of keys reaches from the root.
pub open spec fn locate(nodes: Seq<DocNode>, path: Seq<Seq<char>>) -> Option<int>
    decreases path.len(),
{
    if path.len() == 0 {
        Some(0)
    } else {
        match locate(nodes, path.drop_last()) {
            Some(p) => child_of(nodes, p, path.last()),
            None => None,
        }
    }
}

/// The value held at a path, if the path reaches a node that holds one.
pub open spec fn value_at(nodes: Seq<DocNode>, path: Seq<Seq<char>>) -> Option<FieldValue> {
    match locate(nodes, path) {
        Some(j) => nodes[j].value,
        None => None,
    }
}

/// The value of the last pair whose key splits into `path`.
pub open spec fn last_value(pairs: Seq<(String, FieldValue)>, path: Seq<Seq<char>>) -> Option<FieldValue>
    decreases pairs.len(),
{
    if pairs.len() == 0 {
        None
    } else if dot_segments(pairs.last().0@) == path {
        Some(pairs.last().1)
    } else {
        last_value(pairs.drop_last(), path)
    }
}

/// `q` is a leading part of `s` (possibly all of it, or nothing).
pub open spec fn is_prefix_path(q: Seq<Seq<char>>, s: Seq<Seq<char>>) -> bool {
    q.len() <= s.len() && s.take(q.len() as int) == q
}

/// `q` leads towards (or to) the path of some pair's key.
pub open spec fn on_some_path(pairs: Seq<(String, FieldValue)>, q: Seq<Seq<char>>) -> bool {
    exists|i: int| 0 <= i < pairs.len() && is_prefix_path(q, #[trigger] dot_segments(pairs[i].0@))
}

/// Same parents and keys, node for node.
pub open spec fn same_shape(a: Seq<DocNode>, b: Seq<DocNode>) -> bool {
    a.len() == b.len() && forall|j: int| 0 <= j < a.len() ==> (#[trigger] a[j]).parent == b[j].parent && a[j].key@ == b[j].key@
}

proof fn lemma_child_of_facts(nodes: Seq<DocNode>, p: int, key: Seq<char>)
    requires
        child_of(nodes, p, key) is Some,
    ensures
        child_of(nodes, p, key) matches Some(j) && 1 <= j < nodes.len() && nodes[j].parent == p && nodes[j].key@ == key,
{
    lemma_first_index_witness(nodes.len() as int, child_pick(nodes, p, key));
}

proof fn lemma_locate_root_only(nodes: Seq<DocNode>, path: Seq<Seq<char>>)
    requires
        locate(nodes, path) is Some,
        nodes.len() >= 1,
    ensures
        path.len() > 0 ==> (locate(nodes, path) matches Some(j) && 1 <= j < nodes.len()),
        locate(nodes, path) matches Some(j) && 0 <= j < nodes.len(),
{
    if path.len() > 0 {
        let p = locate(nodes, path.drop_last())->Some_0;
        lemma_child_of_facts(nodes, p, path.last());
    }
}

/// Distinct paths reach distinct nodes.
proof fn lemma_locate_injective(nodes: Seq<DocNode>, a: Seq<Seq<char>>, b: Seq<Seq<char>>)
    requires
        nodes.len() >= 1,
        locate(nodes, a) is Some,
        locate(nodes, a) == locate(nodes, b),
    ensures
        a == b,
    decreases a.len(),
{
    lemma_locate_root_only(nodes, a);
    lemma_locate_root_only(nodes, b);
    if a.len() > 0 && b.len() > 0 {
        let pa = locate(nodes, a.drop_last())->Some_0;
        let pb = locate(nodes, b.drop_last())->Some_0;
        lemma_child_of_facts(nodes, pa, a.last());
        lemma_child_of_facts(nodes, pb, b.last());
        lemma_locate_injective(nodes, a.drop_last(), b.drop_last());
        assert(a =~= a.drop_last().push(a.last()));
        assert(b =~= b.drop_last().push(b.last()));
    } else if a.len() == 0 && b.len() == 0 {
        assert(a =~= b);
    }
}

/// Paths reach the same nodes in two arenas of the same shape.
proof fn lemma_locate_same_shape(a: Seq<DocNode>, b: Seq<DocNode>, path: Seq<Seq<char>>)
    requires
        same_shape(a, b),
    ensures
        locate(a, path) == locate(b, path),
    decreases path.len(),
{
    if path.len() > 0 {
        lemma_locate_same_shape(a, b, path.drop_last());
        if let Some(p) = locate(a, path.drop_last()) {
            let f = child_pick(a, p, path.last());
            let g = child_pick(b, p, path.last());
            assert forall|i: int| 0 <= i < a.len() implies #[trigger] f(i) == g(i) by {
                assert(a[i].parent == b[i].parent && a[i].key@ == b[i].key@);
            }
            lemma_first_index_ext(a.len() as int, f, g);
        }
    }
}

/// Appending a node that no earlier node matches leaves every path where
/// it was; paths that reached nothing reach nothing or the new node.
proof fn lemma_locate_push(old: Seq<DocNode>, n: DocNode, path: Seq<Seq<char>>)
    requires
        nodes_wf(old),
        n.parent < old.len(),
        child_of(old, n.parent as int, n.key@) is None,
    ensures
        n.value is None ==> value_at(old.push(n), path) == value_at(old, path),
        locate(old, path) is Some ==> locate(old.push(n), path) == locate(old, path),
        locate(old, path) is None ==> (locate(old.push(n), path) is None || locate(old.push(n), path) == Some(old.len() as int)),
    decreases path.len(),
{
    let new = old.push(n);
    if path.len() > 0 {
        lemma_locate_push(old, n, path.drop_last());
        let k = path.last();
        match locate(new, path.drop_last()) {
            Some(p) => {
                let f = child_pick(old, p, k);
                let g = child_pick(new, p, k);
                assert forall|i: int| 0 <= i < old.len() implies #[trigger] f(i) == g(i) by {
                    assert(new[i] == old[i]);
                }
                lemma_first_index_ext(old.len() as int, f, g);
                if first_index_some(old.len() as int, g) is Some {
                    lemma_first_index_prefix(old.len() as int, new.len() as int, g);
                }
                if locate(old, path.drop_last()) is Some {
                    lemma_locate_root_only(old, path.drop_last());
                }
                if p == old.len() && child_of(new, p, k) is Some {
                    lemma_child_of_facts(new, p, k);
                    let j = child_of(new, p, k)->Some_0;
                    if j < old.len() {
                        assert(new[j] == old[j]);
                    }
                }
            },
            None => {},
        }
    }
    if locate(old, path) is Some {
        lemma_locate_root_only(old, path);
        let j = locate(old, path)->Some_0;
        assert(new[j] == old[j]);
    }
}

fn find_child(nodes: &Vec<DocNode>, p: usize, key: &str) -> (r: Option<usize>)
    ensures
        match r {
            Some(j) => child_of(nodes@, p as int, key@) == Some(j as int),
            None => child_of(nodes@, p as int, key@) is None,
        },
{
    let ghost f = child_pick(nodes@, p as int, key@);
    let mut j: usize = 0;
    while j < nodes.len()
        invariant
            f == child_pick(nodes@, p as int, key@),
            0 <= j <= nodes@.len(),
            first_index_some(j as int, f) is None,
        decreases nodes@.len() - j,
    {
        if j >= 1 && nodes[j].parent == p && str_eq(nodes[j].key.as_str(), key) {
            proof { lemma_first_index_prefix(j as int + 1, nodes@.len() as int, f); }
            return Some(j);
        }
        j = j + 1;
    }
    None
}

impl Document {
    pub open spec fn wf(&self) -> bool {
        nodes_wf(self.nodes@)
    }

    /// An empty document: the root object alone.
    pub fn new() -> (r: Document)
        ensures
            r.wf(),
            forall|path: Seq<Seq<char>>| #[trigger] value_at(r.nodes@, path) is None,
            forall|path: Seq<Seq<char>>| #[trigger] locate(r.nodes@, path) is Some <==> path.len() == 0,
    {
        let mut nodes: Vec<DocNode> = Vec::new();
        nodes.push(DocNode { key: String::new(), parent: 0, value: None });
        let r = Document { nodes };
        assert forall|path: Seq<Seq<char>>| #[trigger] locate(r.nodes@, path) is Some <==> path.len() == 0 by {
            if path.len() > 0 {
                if locate(r.nodes@, path) is Some {
                    lemma_locate_root_only(r.nodes@, path);
                }
            }
        }
        assert forall|path: Seq<Seq<char>>| #[trigger] value_at(r.nodes@, path) is None by {
            if path.len() > 0 {
                if locate(r.nodes@, path) is Some {
                    lemma_locate_root_only(r.nodes@, path);
                }
            }
        }
        r
    }

    /// Writes `value` at the path of keys `segs`, creating the nodes on the
    /// way; every other path keeps its value.
    pub fn insert_path(&mut self, segs: &Vec<String>, value: FieldValue)
        requires
            old(self).wf(),
        ensures
            final(self).wf(),
            value_at(final(self).nodes@, segs@.map_values(|w: String| w@)) == Some(value),
            forall|q: Seq<Seq<char>>| q != segs@.map_values(|w: String| w@) ==>
                #[trigger] value_at(final(self).nodes@, q) == value_at(old(self).nodes@, q),
            forall|q: Seq<Seq<char>>| #[trigger] locate(final(self).nodes@, q) is Some <==>
                (locate(old(self).nodes@, q) is Some || is_prefix_path(q, segs@.map_values(|w: String| w@))),
    {
        let ghost sv = segs@.map_values(|w: String| w@);
        let mut p: usize = 0;
        let mut i: usize = 0;
        while i < segs.len()
            invariant
                sv == segs@.map_values(|w: String| w@),
                0 <= i <= segs@.len(),
                nodes_wf(self.nodes@),
                p < self.nodes@.len(),
                locate(self.nodes@, sv.take(i as int)) == Some(p as int),
                forall|q: Seq<Seq<char>>| #[trigger] value_at(self.nodes@, q) == value_at(old(self).nodes@, q),
                forall|q: Seq<Seq<char>>| #[trigger] locate(self.nodes@, q) is Some <==>
                    (locate(old(self).nodes@, q) is Some || (q.len() <= i && is_prefix_path(q, sv))),
            decreases segs@.len() - i,
        {
            assert(sv.take(i as int + 1).drop_last() =~= sv.take(i as int));
            assert(sv.take(i as int + 1).last() == segs@[i as int]@);
            match find_child(&self.nodes, p, segs[i].as_str()) {
                Some(j) => {
                    proof {
                        lemma_child_of_facts(self.nodes@, p as int, segs@[i as int]@);
                        assert forall|q: Seq<Seq<char>>| #[trigger] locate(self.nodes@, q) is Some <==>
                            (locate(old(self).nodes@, q) is Some || (q.len() <= i + 1 && is_prefix_path(q, sv))) by {
                            if q.len() == i + 1 && is_prefix_path(q, sv) {
                                assert(q == sv.take(i as int + 1));
                            }
                        }
                    }
                    p = j;
                },
                None => {
                    let ghost before = self.nodes@;
                    let n = DocNode { key: segs[i].clone(), parent: p, value: None };
                    let idx = self.nodes.len();
                    self.nodes.push(n);
                    proof {
                        assert(self.nodes@ == before.push(n));
                        lemma_locate_push(before, n, sv.take(i as int));
                        let g = child_pick(self.nodes@, p as int, segs@[i as int]@);
                        let f = child_pick(before, p as int, segs@[i as int]@);
                        assert forall|k: int| 0 <= k < before.len() implies #[trigger] f(k) == g(k) by {
                            assert(self.nodes@[k] == before[k]);
                        }
                        lemma_first_index_ext(before.len() as int, f, g);
                        assert(locate(self.nodes@, sv.take(i as int + 1)) == Some(idx as int));
                        assert forall|q: Seq<Seq<char>>| #[trigger] value_at(self.nodes@, q) == value_at(old(self).nodes@, q) by {
                            lemma_locate_push(before, n, q);
                            assert(value_at(before, q) == value_at(old(self).nodes@, q));
                        }
                        assert forall|q: Seq<Seq<char>>| #[trigger] locate(self.nodes@, q) is Some <==>
                            (locate(old(self).nodes@, q) is Some || (q.len() <= i + 1 && is_prefix_path(q, sv))) by {
                            lemma_locate_push(before, n, q);
                            assert(locate(before, q) is Some <==>
                                (locate(old(self).nodes@, q) is Some || (q.len() <= i && is_prefix_path(q, sv))));
                            if locate(self.nodes@, q) == Some(idx as int) {
                                lemma_locate_injective(self.nodes@, q, sv.take(i as int + 1));
                            }
                            if q.len() == i + 1 && is_prefix_path(q, sv) {
                                assert(q == sv.take(i as int + 1));
                            }
                            if locate(before, q) is Some {
                                lemma_locate_root_only(before, q);
                            }
                        }
                    }
                    p = idx;
                },
            }
            i = i + 1;
        }
        assert(sv.take(i as int) =~= sv);
        let ghost before = self.nodes@;
        let node = DocNode { key: self.nodes[p].key.clone(), parent: self.nodes[p].parent, value: Some(value) };
        self.nodes.set(p, node);
        proof {
            assert(same_shape(before, self.nodes@));
            assert forall|q: Seq<Seq<char>>| q != sv implies #[trigger] value_at(self.nodes@, q) == value_at(old(self).nodes@, q) by {
                lemma_locate_same_shape(before, self.nodes@, q);
                assert(value_at(before, q) == value_at(old(self).nodes@, q));
                if locate(before, q) is Some {
                    lemma_locate_root_only(before, q);
                    if locate(before, q) == Some(p as int) {
                        lemma_locate_injective(before, q, sv);
                    }
                }
            }
            lemma_locate_same_shape(before, self.nodes@, sv);
            assert forall|q: Seq<Seq<char>>| #[trigger] locate(self.nodes@, q) is Some <==>
                (locate(old(self).nodes@, q) is Some || is_prefix_path(q, sv)) by {
                lemma_locate_same_shape(before, self.nodes@, q);
                assert(locate(before, q) is Some <==>
                    (locate(old(self).nodes@, q) is Some || (q.len() <= i && is_prefix_path(q, sv))));
            }
        }
    }
}

/// How a node reads in the nested document: a node without children is its
/// value; a node with children is an object of them, with its own value, if
/// it has one, under the key `value`.
pub enum NodeShape {
    Value(FieldValue),
    Object { own: Option<FieldValue>, children: Vec<usize> },
}

/// The children of node `p`, in order.
pub open spec fn children_of(nodes: Seq<DocNode>, p: int) -> Seq<int> {
    Seq::new(nodes.len() as nat, |j: int| j).filter(|j: int| j >= 1 && nodes[j].parent == p)
}

impl Document {
    /// Rebuilds the nested document of a flat list of (dotted path, value)
    /// pairs: each path, split at its dots, leads from the root to the node
    /// that holds its value; where two pairs share a path the later wins.
    pub fn nest(flat: &Vec<(String, FieldValue)>) -> (r: Document)
        ensures
            r.wf(),
            forall|q: Seq<Seq<char>>| #[trigger] value_at(r.nodes@, q) == last_value(flat@, q),
            forall|q: Seq<Seq<char>>| #[trigger] locate(r.nodes@, q) is Some <==> (q.len() == 0 || on_some_path(flat@, q)),
    {
        let mut doc = Document::new();
        let mut i: usize = 0;
        while i < flat.len()
            invariant
                0 <= i <= flat@.len(),
                doc.wf(),
                forall|q: Seq<Seq<char>>| #[trigger] value_at(doc.nodes@, q) == last_value(flat@.take(i as int), q),
                forall|q: Seq<Seq<char>>| #[trigger] locate(doc.nodes@, q) is Some <==> (q.len() == 0 || on_some_path(flat@.take(i as int), q)),
            decreases flat@.len() - i,
        {
            let segs = split_dots(flat[i].0.as_str());
            let v = copy_value(&flat[i].1);
            doc.insert_path(&segs, v);
            let ghost pre = flat@.take(i as int);
            let ghost post = flat@.take(i as int + 1);
            assert(post.drop_last() =~= pre);
            assert(post[i as int] == flat@[i as int]);
            assert forall|q: Seq<Seq<char>>| #[trigger] on_some_path(post, q) <==>
                (on_some_path(pre, q) || is_prefix_path(q, dot_segments(flat@[i as int].0@))) by {
                if on_some_path(post, q) {
                    let k = choose|k: int| 0 <= k < post.len() && is_prefix_path(q, #[trigger] dot_segments(post[k].0@));
                    if k < i {
                        assert(pre[k] == post[k]);
                    }
                }
                if on_some_path(pre, q) {
                    let k = choose|k: int| 0 <= k < pre.len() && is_prefix_path(q, #[trigger] dot_segments(pre[k].0@));
                    assert(post[k] == pre[k]);
                }
                if is_prefix_path(q, dot_segments(flat@[i as int].0@)) {
                    assert(is_prefix_path(q, dot_segments(post[i as int].0@)));
                }
            }
            i = i + 1;
        }
        assert(flat@.take(i as int) =~= flat@);
        doc
    }

    /// The children of node `p`, in order.
    pub fn children(&self, p: usize) -> (r: Vec<usize>)
        ensures
            r@.map_values(|j: usize| j as int) == children_of(self.nodes@, p as int),
    {
        let mut out: Vec<usize> = Vec::new();
        let mut j: usize = 0;
        let ghost all = Seq::new(self.nodes@.len() as nat, |j: int| j);
        let ghost keep = |j: int| j >= 1 && self.nodes@[j].parent == p;
        while j < self.nodes.len()
            invariant
                0 <= j <= self.nodes@.len(),
                all == Seq::new(self.nodes@.len() as nat, |j: int| j),
                keep == (|j: int| j >= 1 && self.nodes@[j].parent == p),
                out@.map_values(|j: usize| j as int) == all.take(j as int).filter(keep),
            decreases self.nodes@.len() - j,
        {
            let ghost before = out@;
            assert(all.take(j as int + 1).drop_last() =~= all.take(j as int));
            proof { reveal(Seq::filter); }
            assert(all.take(j as int + 1).last() == j as int);
            if j >= 1 && self.nodes[j].parent == p {
                out.push(j);
                assert(out@.map_values(|j: usize| j as int) =~= before.map_values(|j: usize| j as int).push(j as int));
            }
            j = j + 1;
        }
        assert(all.take(j as int) =~= all);
        out
    }

    /// How node `p` reads in the nested document.
    pub fn shape(&self, p: usize) -> (r: NodeShape)
        requires
            p < self.nodes@.len(),
        ensures
            match r {
                NodeShape::Value(v) => children_of(self.nodes@, p as int).len() == 0 && self.nodes@[p as int].value == Some(v),
                NodeShape::Object { own, children } => children@.map_values(|j: usize| j as int) == children_of(self.nodes@, p as int)
                    && own == self.nodes@[p as int].value
                    && (children_of(self.nodes@, p as int).len() > 0 || own is None),
            },
    {
        let children = self.children(p);
        if children.len() == 0 {
            match &self.nodes[p].value {
                Some(v) => return NodeShape::Value(copy_value(v)),
                None => return NodeShape::Object { own: None, children },
            }
        }
        let own = match &self.nodes[p].value {
            Some(v) => Some(copy_value(v)),
            None => None,
        };
        NodeShape::Object { own, children }
    }
}

} // verus!
