use vstd::prelude::*;
use vstd::pervasive::VecAdditionalExecFns;
use crate::array::{all_in_bounds, gather, offset, points_view, shape_size, DenseArray};
use crate::backend::{
    child_path, content_wf, is_group_at,
    attr_of, create_outcome, group_node, is_prefix, path_view, Backend,
    NodeContent, NodeKind, NodeView, Selection, arr_attr_of, without, selected, scatter, written,
};
use crate::scalar::DynScalar;
use crate::types::{DataError, ScalarType};

verus! {

/// What an in-memory location holds.
#[derive(Debug)]
pub enum MemContent {
    Group,
    Dataset(DenseArray),
}

/// One location of an in-memory store: its full path, attributes and content.
#[derive(Debug)]
pub struct MemNode {
    pub path: Vec<String>,
    pub attrs: Vec<(String, String)>,
    pub arr_attrs: Vec<(String, Vec<String>)>,
    pub content: MemContent,
}

pub open spec fn content_view(c: MemContent) -> NodeContent {
    match c {
        MemContent::Group => NodeContent::Group,
        MemContent::Dataset(a) => NodeContent::Dataset { dtype: a.dtype, shape: a.shape@, data: a.data@ },
    }
}

impl MemNode {
    pub open spec fn pv(&self) -> Seq<Seq<char>> {
        path_view(self.path@)
    }

    pub open spec fn view(&self) -> NodeView {
        NodeView {
            attrs: self.attrs@.map_values(|a: (String, String)| (a.0@, a.1@)),
            arr_attrs: self.arr_attrs@.map_values(|a: (String, Vec<String>)| (a.0@, path_view(a.1@))),
            content: content_view(self.content),
        }
    }

    pub open spec fn wf(&self) -> bool {
        match self.content {
            MemContent::Group => true,
            MemContent::Dataset(a) => a.wf(),
        }
    }
}

/// A backend that keeps the whole hierarchy in memory, as a flat list of locations
/// addressed by their full paths.
#[derive(Debug)]
pub struct MemStore {
    nodes: Vec<MemNode>,
}

/// Two paths name the same location.
fn paths_equal(a: &Vec<String>, b: &Vec<String>) -> (r: bool)
    ensures
        r == (path_view(a@) == path_view(b@)),
{
    if a.len() != b.len() {
        assert(path_view(a@).len() != path_view(b@).len());
        return false;
    }
    let mut k: usize = 0;
    while k < a.len()
        invariant
            a@.len() == b@.len(),
            k <= a@.len(),
            forall|j: int| 0 <= j < k ==> a@[j]@ == b@[j]@,
        decreases a@.len() - k,
    {
        if a[k] != b[k] {
            assert(path_view(a@)[k as int] != path_view(b@)[k as int]);
            return false;
        }
        k = k + 1;
    }
    assert(path_view(a@) =~= path_view(b@));
    true
}

/// `prefix` is `path` itself or one of its ancestors.
fn has_prefix(path: &Vec<String>, prefix: &Vec<String>) -> (r: bool)
    ensures
        r == is_prefix(path_view(prefix@), path_view(path@)),
{
    if prefix.len() > path.len() {
        return false;
    }
    let mut k: usize = 0;
    while k < prefix.len()
        invariant
            prefix@.len() <= path@.len(),
            k <= prefix@.len(),
            forall|j: int| 0 <= j < k ==> path@[j]@ == prefix@[j]@,
        decreases prefix@.len() - k,
    {
        if path[k] != prefix[k] {
            assert(path_view(path@).subrange(0, prefix@.len() as int)[k as int] != path_view(prefix@)[k as int]);
            return false;
        }
        k = k + 1;
    }
    assert(path_view(path@).subrange(0, prefix@.len() as int) =~= path_view(prefix@));
    true
}

/// The location `v` is a direct child of `p`.
pub open spec fn is_child_of(p: Seq<Seq<char>>, v: Seq<Seq<char>>) -> bool {
    v.len() == p.len() + 1 && is_prefix(p, v)
}

/// The names of the direct children of `p` among `ns`, in their order.
pub open spec fn children_in(ns: Seq<MemNode>, p: Seq<Seq<char>>) -> Seq<Seq<char>>
    decreases ns.len(),
{
    if ns.len() == 0 {
        Seq::empty()
    } else if is_child_of(p, ns.last().pv()) {
        children_in(ns.drop_last(), p).push(ns.last().pv().last())
    } else {
        children_in(ns.drop_last(), p)
    }
}

/// Every location but the root has its parent among `ns`, as a group.
#[verifier::opaque]
pub open spec fn parents_ok(ns: Seq<MemNode>) -> bool {
    forall|i: int| 0 <= i < ns.len() && (#[trigger] ns[i]).pv().len() > 0
        ==> exists|j: int| 0 <= j < ns.len() && ns[j].pv() == ns[i].pv().drop_last() && ns[j].content is Group
}

/// Replacing a location by one with the same path and kind keeps every parent.
proof fn lemma_parents_update(a: Seq<MemNode>, i: int, n: MemNode)
    requires
        parents_ok(a),
        0 <= i < a.len(),
        n.pv() == a[i].pv(),
        n.content is Group <==> a[i].content is Group,
    ensures
        parents_ok(a.update(i, n)),
{
    reveal(parents_ok);
    let b = a.update(i, n);
    assert forall|k: int| 0 <= k < b.len() && (#[trigger] b[k]).pv().len() > 0
        implies exists|j: int| 0 <= j < b.len() && b[j].pv() == b[k].pv().drop_last() && b[j].content is Group by {
        assert(a[k].pv() == b[k].pv());
        let j = choose|j: int| 0 <= j < a.len() && a[j].pv() == a[k].pv().drop_last() && a[j].content is Group;
        assert(b[j].pv() == a[j].pv());
    }
}

/// Adding a location whose parent group is present keeps every parent.
proof fn lemma_parents_push(a: Seq<MemNode>, n: MemNode, pi: int)
    requires
        parents_ok(a),
        0 <= pi < a.len(),
        a[pi].pv() == n.pv().drop_last(),
        a[pi].content is Group,
    ensures
        parents_ok(a.push(n)),
{
    reveal(parents_ok);
    let b = a.push(n);
    assert forall|k: int| 0 <= k < b.len() && (#[trigger] b[k]).pv().len() > 0
        implies exists|j: int| 0 <= j < b.len() && b[j].pv() == b[k].pv().drop_last() && b[j].content is Group by {
        if k == a.len() {
            assert(b[pi] == a[pi]);
        } else {
            assert(b[k] == a[k]);
            let j = choose|j: int| 0 <= j < a.len() && a[j].pv() == a[k].pv().drop_last() && a[j].content is Group;
            assert(b[j] == a[j]);
        }
    }
}

/// The listing depends on the paths alone.
proof fn lemma_children_same_paths(a: Seq<MemNode>, b: Seq<MemNode>, g: Seq<Seq<char>>)
    requires
        a.len() == b.len(),
        forall|i: int| 0 <= i < a.len() ==> #[trigger] a[i].pv() == b[i].pv(),
    ensures
        children_in(a, g) == children_in(b, g),
    decreases a.len(),
{
    if a.len() > 0 {
        let a2 = a.drop_last();
        let b2 = b.drop_last();
        assert forall|i: int| 0 <= i < a2.len() implies #[trigger] a2[i].pv() == b2[i].pv() by {
            assert(a2[i] == a[i] && b2[i] == b[i]);
        }
        lemma_children_same_paths(a2, b2, g);
        assert(a.last().pv() == b.last().pv());
    }
}

/// A direct child of `p` is `p` with its own last name appended.
proof fn lemma_child_path(p: Seq<Seq<char>>, v: Seq<Seq<char>>)
    requires
        is_child_of(p, v),
    ensures
        v == p.push(v.last()),
{
    assert(v.subrange(0, p.len() as int) == p);
    assert(v =~= p.push(v.last()));
}

/// With unique paths, each child name occurs once, and a name is listed exactly
/// when its child path occurs.
proof fn lemma_children_in(ns: Seq<MemNode>, p: Seq<Seq<char>>)
    requires
        forall|i: int, j: int| 0 <= i < ns.len() && 0 <= j < ns.len() && i != j
            ==> #[trigger] ns[i].pv() != #[trigger] ns[j].pv(),
    ensures
        children_in(ns, p).no_duplicates(),
        forall|name: Seq<char>| #[trigger] children_in(ns, p).contains(name)
            <==> exists|i: int| 0 <= i < ns.len() && #[trigger] ns[i].pv() == p.push(name),
    decreases ns.len(),
{
    if ns.len() > 0 {
        let d = ns.drop_last();
        assert forall|i: int, j: int| 0 <= i < d.len() && 0 <= j < d.len() && i != j
            implies #[trigger] d[i].pv() != #[trigger] d[j].pv() by {
            assert(d[i] == ns[i] && d[j] == ns[j]);
        }
        lemma_children_in(d, p);
        let rest = children_in(d, p);
        let last = ns.len() - 1;
        let v = ns[last].pv();
        if is_child_of(p, v) {
            lemma_child_path(p, v);
            let x = v.last();
            assert(!rest.contains(x)) by {
                if rest.contains(x) {
                    let i = choose|i: int| 0 <= i < d.len() && #[trigger] d[i].pv() == p.push(x);
                    assert(ns[i].pv() == ns[last].pv());
                }
            }
            let c = rest.push(x);
            assert forall|a: int, b: int| 0 <= a < c.len() && 0 <= b < c.len() && a != b implies c[a] != c[b] by {
                if a == c.len() - 1 {
                    assert(rest[b] == c[b]);
                } else if b == c.len() - 1 {
                    assert(rest[a] == c[a]);
                }
            }
            assert forall|name: Seq<char>| #[trigger] c.contains(name)
                <==> exists|i: int| 0 <= i < ns.len() && #[trigger] ns[i].pv() == p.push(name) by {
                if c.contains(name) {
                    let k = choose|k: int| 0 <= k < c.len() && c[k] == name;
                    if k == c.len() - 1 {
                        assert(ns[last].pv() == p.push(name));
                    } else {
                        assert(rest[k] == name);
                        assert(rest.contains(name));
                        let i = choose|i: int| 0 <= i < d.len() && #[trigger] d[i].pv() == p.push(name);
                        assert(ns[i] == d[i]);
                    }
                }
                if exists|i: int| 0 <= i < ns.len() && #[trigger] ns[i].pv() == p.push(name) {
                    let i = choose|i: int| 0 <= i < ns.len() && #[trigger] ns[i].pv() == p.push(name);
                    if i == last {
                        assert(p.push(name).last() == name);
                        assert(c[c.len() - 1] == name);
                    } else {
                        assert(d[i] == ns[i]);
                        assert(rest.contains(name));
                        let k = choose|k: int| 0 <= k < rest.len() && rest[k] == name;
                        assert(c[k] == name);
                    }
                }
            }
        } else {
            assert forall|name: Seq<char>| #[trigger] rest.contains(name)
                <==> exists|i: int| 0 <= i < ns.len() && #[trigger] ns[i].pv() == p.push(name) by {
                if exists|i: int| 0 <= i < ns.len() && #[trigger] ns[i].pv() == p.push(name) {
                    let i = choose|i: int| 0 <= i < ns.len() && #[trigger] ns[i].pv() == p.push(name);
                    if i == last {
                        assert(p.push(name).subrange(0, p.len() as int) =~= p);
                        assert(is_child_of(p, ns[i].pv()));
                    } else {
                        assert(d[i] == ns[i]);
                    }
                }
                if rest.contains(name) {
                    let i = choose|i: int| 0 <= i < d.len() && #[trigger] d[i].pv() == p.push(name);
                    assert(ns[i] == d[i]);
                }
            }
        }
    }
}

impl MemStore {
    spec fn holds(&self, p: Seq<Seq<char>>) -> bool {
        exists|i: int| 0 <= i < self.nodes@.len() && #[trigger] self.nodes@[i].pv() == p
    }

    proof fn lemma_node_at(&self, i: int)
        requires
            self.wf(),
            0 <= i < self.nodes@.len(),
        ensures
            self.node(self.nodes@[i].pv()) == Some(self.nodes@[i].view()),
    {
        let p = self.nodes@[i].pv();
        assert(self.holds(p));
        let j = choose|j: int| 0 <= j < self.nodes@.len() && #[trigger] self.nodes@[j].pv() == p;
        assert(j == i);
    }

    /// A store holding only the root group.
    pub fn new() -> (r: MemStore)
        ensures
            r.wf(),
            r.node(Seq::empty()) == Some(group_node()),
            forall|q: Seq<Seq<char>>| q != Seq::<Seq<char>>::empty() ==> #[trigger] r.node(q) is None,
    {
        let root = MemNode { path: Vec::new(), attrs: Vec::new(), arr_attrs: Vec::new(), content: MemContent::Group };
        let r = MemStore { nodes: vec![root] };
        proof {
            assert(r.nodes@[0].pv() =~= Seq::<Seq<char>>::empty());
            assert(r.nodes@[0].view().attrs =~= Seq::empty());
            assert(r.nodes@[0].view().arr_attrs =~= Seq::empty());
            reveal(parents_ok);
            assert(parents_ok(r.nodes@));
            r.lemma_node_at(0);
        }
        r
    }

    /// The position of the location at `path`.
    fn find(&self, path: &Vec<String>) -> (r: Option<usize>)
        requires
            self.wf(),
        ensures
            r matches Some(i) ==> i < self.nodes@.len() && self.nodes@[i as int].pv() == path_view(path@)
                && self.node(path_view(path@)) == Some(self.nodes@[i as int].view()),
            r is None ==> self.node(path_view(path@)) is None,
    {
        let mut i: usize = 0;
        while i < self.nodes.len()
            invariant
                self.wf(),
                i <= self.nodes@.len(),
                forall|j: int| 0 <= j < i ==> #[trigger] self.nodes@[j].pv() != path_view(path@),
            decreases self.nodes@.len() - i,
        {
            if paths_equal(&self.nodes[i].path, path) {
                proof {
                    self.lemma_node_at(i as int);
                }
                return Some(i);
            }
            i = i + 1;
        }
        None
    }
}

impl Backend for MemStore {
    closed spec fn wf(&self) -> bool {
        &&& forall|i: int, j: int|
            0 <= i < self.nodes@.len() && 0 <= j < self.nodes@.len() && i != j
                ==> #[trigger] self.nodes@[i].pv() != #[trigger] self.nodes@[j].pv()
        &&& forall|i: int| 0 <= i < self.nodes@.len() ==> (#[trigger] self.nodes@[i]).wf()
        &&& parents_ok(self.nodes@)
    }

    proof fn lemma_stored(&self, p: Seq<Seq<char>>) {
        if self.holds(p) {
            let i = choose|i: int| 0 <= i < self.nodes@.len() && #[trigger] self.nodes@[i].pv() == p;
            self.lemma_node_at(i);
            assert(self.nodes@[i].wf());
            if p.len() > 0 {
                reveal(parents_ok);
                let j = choose|j: int| 0 <= j < self.nodes@.len() && self.nodes@[j].pv() == self.nodes@[i].pv().drop_last()
                    && self.nodes@[j].content is Group;
                self.lemma_node_at(j);
            }
        }
    }

    closed spec fn children(&self, p: Seq<Seq<char>>) -> Seq<Seq<char>> {
        children_in(self.nodes@, p)
    }

    proof fn lemma_children(&self, p: Seq<Seq<char>>) {
        lemma_children_in(self.nodes@, p);
        assert forall|name: Seq<char>| #[trigger] self.children(p).contains(name) <==> self.node(p.push(name)) is Some by {
            if self.holds(p.push(name)) {
                let i = choose|i: int| 0 <= i < self.nodes@.len() && #[trigger] self.nodes@[i].pv() == p.push(name);
                assert(self.nodes@[i].pv() == p.push(name));
            }
        }
    }

    closed spec fn node(&self, p: Seq<Seq<char>>) -> Option<NodeView> {
        if self.holds(p) {
            Some(self.nodes@[choose|i: int| 0 <= i < self.nodes@.len() && #[trigger] self.nodes@[i].pv() == p].view())
        } else {
            None
        }
    }

    fn kind(&self, path: &Vec<String>) -> (r: Option<NodeKind>) {
        match self.find(path) {
            None => None,
            Some(i) => match &self.nodes[i].content {
                MemContent::Group => Some(NodeKind::Group),
                MemContent::Dataset(_) => Some(NodeKind::Dataset),
            },
        }
    }

    fn list(&self, path: &Vec<String>) -> (r: Result<Vec<String>, DataError>) {
        match self.find(path) {
            None => return Err(DataError::NotFound),
            Some(i) => match &self.nodes[i].content {
                MemContent::Group => {},
                MemContent::Dataset(_) => return Err(DataError::TypeMismatch),
            },
        }
        let ghost pp = path_view(path@);
        let mut out: Vec<String> = Vec::new();
        let mut j: usize = 0;
        while j < self.nodes.len()
            invariant
                self.wf(),
                pp == path_view(path@),
                j <= self.nodes@.len(),
                path_view(out@) == children_in(self.nodes@.subrange(0, j as int), pp),
                forall|m: int| 0 <= m < out@.len() ==> self.node(pp.push(#[trigger] out@[m]@)) is Some,
                forall|jj: int| 0 <= jj < j && (#[trigger] self.nodes@[jj].pv()).len() == pp.len() + 1
                    && is_prefix(pp, self.nodes@[jj].pv())
                    ==> exists|m: int| 0 <= m < out@.len() && out@[m]@ == self.nodes@[jj].pv().last(),
            decreases self.nodes@.len() - j,
        {
            let p = &self.nodes[j].path;
            let ghost out0 = out@;
            let ghost sub = self.nodes@.subrange(0, j as int + 1);
            assert(sub.drop_last() =~= self.nodes@.subrange(0, j as int));
            if p.len() > 0 && p.len() - 1 == path.len() && has_prefix(p, path) {
                let name = p[path.len()].clone();
                proof {
                    let v = self.nodes@[j as int].pv();
                    assert(v.subrange(0, pp.len() as int) == pp);
                    assert(v =~= pp.push(name@));
                    self.lemma_node_at(j as int);
                }
                out.push(name);
                proof {
                    let m = out@.len() - 1;
                    assert(out@[m]@ == self.nodes@[j as int].pv().last());
                    assert(path_view(out@) =~= path_view(out0).push(name@));
                }
            }
            proof {
                assert(path_view(out@) == children_in(sub, pp));
                assert forall|jj: int| 0 <= jj <= j && (#[trigger] self.nodes@[jj].pv()).len() == pp.len() + 1
                    && is_prefix(pp, self.nodes@[jj].pv())
                    implies exists|m: int| 0 <= m < out@.len() && out@[m]@ == self.nodes@[jj].pv().last() by {
                    if jj < j {
                        let m = choose|m: int| 0 <= m < out0.len() && out0[m]@ == self.nodes@[jj].pv().last();
                        assert(out@[m] == out0[m]);
                    } else {
                        assert(self.nodes@[jj].path@.len() == self.nodes@[jj].pv().len());
                        let m = out@.len() - 1;
                        assert(out@[m]@ == self.nodes@[jj].pv().last());
                    }
                }
            }
            j = j + 1;
        }
        proof {
            assert(self.nodes@.subrange(0, j as int) =~= self.nodes@);
            assert forall|name: Seq<char>| #[trigger] self.node(pp.push(name)) is Some
                implies exists|m: int| 0 <= m < out@.len() && out@[m]@ == name by {
                let q = pp.push(name);
                assert(self.holds(q));
                let jj = choose|jj: int| 0 <= jj < self.nodes@.len() && #[trigger] self.nodes@[jj].pv() == q;
                assert(q.subrange(0, pp.len() as int) =~= pp);
                assert(is_prefix(pp, self.nodes@[jj].pv()));
            }
        }
        Ok(out)
    }

    fn read_str_attr(&self, path: &Vec<String>, name: &str) -> (r: Result<String, DataError>) {
        let i = match self.find(path) {
            None => return Err(DataError::NotFound),
            Some(i) => i,
        };
        let attrs = &self.nodes[i].attrs;
        let ghost av = self.nodes@[i as int].view().attrs;
        let key = name.to_owned();
        let mut k: usize = attrs.len();
        assert(av.subrange(0, k as int) =~= av);
        while k > 0
            invariant
                i < self.nodes@.len(),
                attrs == self.nodes@[i as int].attrs,
                av == self.nodes@[i as int].view().attrs,
                self.node(path_view(path@)) == Some(self.nodes@[i as int].view()),
                k <= attrs@.len(),
                av.len() == attrs@.len(),
                forall|j: int| 0 <= j < av.len() ==> #[trigger] av[j] == (attrs@[j].0@, attrs@[j].1@),
                key@ == name@,
                attr_of(av, name@) == attr_of(av.subrange(0, k as int), name@),
            decreases k,
        {
            let ghost sub = av.subrange(0, k as int);
            assert(sub.drop_last() =~= av.subrange(0, k as int - 1));
            assert(av[k - 1] == (attrs@[k - 1].0@, attrs@[k - 1].1@));
            assert(sub.last() == av[k - 1]);
            if attrs[k - 1].0 == key {
                assert(attr_of(sub, name@) == Some(av[k - 1].1));
                let v = attrs[k - 1].1.clone();
                return Ok(v);
            }
            k = k - 1;
        }
        assert(av.subrange(0, 0) =~= Seq::<(Seq<char>, Seq<char>)>::empty());
        Err(DataError::NotFound)
    }

    fn write_str_attr(&mut self, path: &Vec<String>, name: &str, value: &str) -> (r: Result<(), DataError>) {
        let i = match self.find(path) {
            None => return Err(DataError::NotFound),
            Some(i) => i,
        };
        let ghost before = *self;
        let mut n = MemNode { path: Vec::new(), attrs: Vec::new(), arr_attrs: Vec::new(), content: MemContent::Group };
        self.nodes.set_and_swap(i, &mut n);
        n.attrs.push((name.to_owned(), value.to_owned()));
        let ghost nv = n;
        self.nodes.set_and_swap(i, &mut n);
        proof {
            assert(self.nodes@ == before.nodes@.update(i as int, nv));
            assert forall|g: Seq<Seq<char>>| #[trigger] self.children(g) == before.children(g) by {
                assert forall|k: int| 0 <= k < self.nodes@.len() implies #[trigger] self.nodes@[k].pv() == before.nodes@[k].pv() by {
                    if k == i {
                        assert(nv.path == before.nodes@[i as int].path);
                    }
                }
                lemma_children_same_paths(self.nodes@, before.nodes@, g);
            }
            lemma_parents_update(before.nodes@, i as int, nv);
            assert(nv.view().attrs =~= before.nodes@[i as int].view().attrs.push((name@, value@)));
            assert(self.wf());
            self.lemma_node_at(i as int);
            assert forall|q: Seq<Seq<char>>| q != path_view(path@) implies #[trigger] self.node(q) == before.node(q) by {
                if before.holds(q) {
                    let j = choose|j: int| 0 <= j < before.nodes@.len() && #[trigger] before.nodes@[j].pv() == q;
                    before.lemma_node_at(j);
                    self.lemma_node_at(j);
                } else {
                    assert(!self.holds(q));
                }
            }
        }
        Ok(())
    }

    fn read_str_arr_attr(&self, path: &Vec<String>, name: &str) -> (r: Result<Vec<String>, DataError>) {
        let i = match self.find(path) {
            None => return Err(DataError::NotFound),
            Some(i) => i,
        };
        let attrs = &self.nodes[i].arr_attrs;
        let ghost av = self.nodes@[i as int].view().arr_attrs;
        let key = name.to_owned();
        let mut k: usize = attrs.len();
        assert(av.subrange(0, k as int) =~= av);
        while k > 0
            invariant
                i < self.nodes@.len(),
                attrs == self.nodes@[i as int].arr_attrs,
                av == self.nodes@[i as int].view().arr_attrs,
                self.node(path_view(path@)) == Some(self.nodes@[i as int].view()),
                k <= attrs@.len(),
                av.len() == attrs@.len(),
                forall|j: int| 0 <= j < av.len() ==> #[trigger] av[j] == (attrs@[j].0@, path_view(attrs@[j].1@)),
                key@ == name@,
                arr_attr_of(av, name@) == arr_attr_of(av.subrange(0, k as int), name@),
            decreases k,
        {
            let ghost sub = av.subrange(0, k as int);
            assert(sub.drop_last() =~= av.subrange(0, k as int - 1));
            assert(av[k - 1] == (attrs@[k - 1].0@, path_view(attrs@[k - 1].1@)));
            assert(sub.last() == av[k - 1]);
            if attrs[k - 1].0 == key {
                let v = crate::backend::path_prefix(&attrs[k - 1].1, attrs[k - 1].1.len());
                assert(path_view(attrs@[k - 1].1@).subrange(0, attrs@[k - 1].1@.len() as int) =~= path_view(attrs@[k - 1].1@));
                return Ok(v);
            }
            k = k - 1;
        }
        assert(av.subrange(0, 0) =~= Seq::<(Seq<char>, Seq<Seq<char>>)>::empty());
        Err(DataError::NotFound)
    }

    fn write_str_arr_attr(&mut self, path: &Vec<String>, name: &str, value: &Vec<String>) -> (r: Result<(), DataError>) {
        let i = match self.find(path) {
            None => return Err(DataError::NotFound),
            Some(i) => i,
        };
        let ghost before = *self;
        let copy = crate::backend::path_prefix(value, value.len());
        assert(path_view(value@).subrange(0, value@.len() as int) =~= path_view(value@));
        let mut n = MemNode { path: Vec::new(), attrs: Vec::new(), arr_attrs: Vec::new(), content: MemContent::Group };
        self.nodes.set_and_swap(i, &mut n);
        n.arr_attrs.push((name.to_owned(), copy));
        let ghost nv = n;
        self.nodes.set_and_swap(i, &mut n);
        proof {
            assert(self.nodes@ == before.nodes@.update(i as int, nv));
            assert forall|g: Seq<Seq<char>>| #[trigger] self.children(g) == before.children(g) by {
                assert forall|k: int| 0 <= k < self.nodes@.len() implies #[trigger] self.nodes@[k].pv() == before.nodes@[k].pv() by {
                    if k == i {
                        assert(nv.path == before.nodes@[i as int].path);
                    }
                }
                lemma_children_same_paths(self.nodes@, before.nodes@, g);
            }
            lemma_parents_update(before.nodes@, i as int, nv);
            assert(nv.view().arr_attrs =~= before.nodes@[i as int].view().arr_attrs.push((name@, path_view(value@))));
            assert(nv.view().attrs =~= before.nodes@[i as int].view().attrs);
            assert(self.wf());
            self.lemma_node_at(i as int);
            assert forall|q: Seq<Seq<char>>| q != path_view(path@) implies #[trigger] self.node(q) == before.node(q) by {
                if before.holds(q) {
                    let j = choose|j: int| 0 <= j < before.nodes@.len() && #[trigger] before.nodes@[j].pv() == q;
                    before.lemma_node_at(j);
                    self.lemma_node_at(j);
                } else {
                    assert(!self.holds(q));
                }
            }
        }
        Ok(())
    }

    fn dtype(&self, path: &Vec<String>) -> (r: Result<ScalarType, DataError>) {
        match self.find(path) {
            None => Err(DataError::NotFound),
            Some(i) => match &self.nodes[i].content {
                MemContent::Group => Err(DataError::TypeMismatch),
                MemContent::Dataset(a) => Ok(a.dtype),
            },
        }
    }

    fn shape(&self, path: &Vec<String>) -> (r: Result<Vec<usize>, DataError>) {
        match self.find(path) {
            None => Err(DataError::NotFound),
            Some(i) => match &self.nodes[i].content {
                MemContent::Group => Err(DataError::TypeMismatch),
                MemContent::Dataset(a) => Ok(a.shape.clone()),
            },
        }
    }

    fn read_array(&self, path: &Vec<String>, sel: &Selection) -> (r: Result<DenseArray, DataError>) {
        let i = match self.find(path) {
            None => return Err(DataError::NotFound),
            Some(i) => i,
        };
        let a = match &self.nodes[i].content {
            MemContent::Group => return Err(DataError::TypeMismatch),
            MemContent::Dataset(a) => a,
        };
        assert(self.nodes@[i as int].wf());
        assert(self.nodes@[i as int].content == MemContent::Dataset(*a));
        match sel {
            Selection::All => {
                let r = a.duplicate();
                assert forall|j: int| 0 <= j < r.data@.len() implies (#[trigger] r.data@[j]).scalar_type_spec() == r.dtype by {
                    assert(r.data@[j] == a.data@[j]);
                }
                Ok(r)
            },
            Selection::Points(pts) => {
                assert(a.data@.len() == a.data.len());
                let mut out: Vec<DynScalar> = Vec::new();
                let mut k: usize = 0;
                while k < pts.len()
                    invariant
                        i < self.nodes@.len(),
                        self.nodes@[i as int].content == MemContent::Dataset(*a),
                        self.node(path_view(path@)) == Some(self.nodes@[i as int].view()),
                        *sel == Selection::Points(*pts),
                        a.wf(),
                        shape_size(a.shape@) <= usize::MAX,
                        k <= pts@.len(),
                        forall|j: int| 0 <= j < k ==> crate::array::in_bounds(a.shape@, #[trigger] pts@[j]@),
                        out@.len() == k,
                        forall|j: int| 0 <= j < k ==> #[trigger] out@[j] == a.data@[crate::array::flat_index(a.shape@, pts@[j]@)],
                    decreases pts@.len() - k,
                {
                    match offset(&a.shape, &pts[k]) {
                        None => {
                            assert(points_view(pts@)[k as int] == pts@[k as int]@);
                            assert(!all_in_bounds(a.shape@, points_view(pts@)));
                            return Err(DataError::StructuralPrecondition);
                        },
                        Some(o) => {
                            out.push(a.data[o].duplicate());
                        },
                    }
                    k = k + 1;
                }
                assert(all_in_bounds(a.shape@, points_view(pts@)));
                assert(out@ =~= gather(a.shape@, a.data@, points_view(pts@)));
                let shape: Vec<usize> = vec![pts.len()];
                assert(shape@ =~= seq![pts@.len() as usize]);
                assert(shape@.drop_last() =~= Seq::<usize>::empty());
                assert(shape_size(shape@.drop_last()) == 1);
                assert(shape_size(shape@) == out@.len());
                let r = DenseArray { dtype: a.dtype, shape, data: out };
                assert forall|j: int| 0 <= j < r.data@.len() implies (#[trigger] r.data@[j]).scalar_type_spec() == r.dtype by {
                    crate::array::lemma_flat_index_bounds(a.shape@, pts@[j]@);
                }
                Ok(r)
            },
        }
    }

    fn write_selection(&mut self, path: &Vec<String>, sel: &Selection, values: &DenseArray) -> (r: Result<(), DataError>) {
        let i = match self.find(path) {
            None => return Err(DataError::NotFound),
            Some(i) => i,
        };
        let data = match &self.nodes[i].content {
            MemContent::Group => return Err(DataError::TypeMismatch),
            MemContent::Dataset(a) => {
                assert(self.nodes@[i as int].wf());
                match new_elements(a, sel, values) {
                    Err(e) => return Err(e),
                    Ok(d) => d,
                }
            },
        };
        let ghost before = *self;
        let mut n = MemNode { path: Vec::new(), attrs: Vec::new(), arr_attrs: Vec::new(), content: MemContent::Group };
        self.nodes.set_and_swap(i, &mut n);
        assert(n == before.nodes@[i as int]);
        let MemNode { path: p, attrs, arr_attrs, content } = n;
        let updated = match content {
            MemContent::Dataset(a) => MemNode {
                path: p,
                attrs,
                arr_attrs,
                content: MemContent::Dataset(DenseArray { dtype: a.dtype, shape: a.shape, data }),
            },
            MemContent::Group => {
                assert(false);
                return Err(DataError::TypeMismatch);
            },
        };
        let ghost nv = updated;
        self.nodes.set(i, updated);
        proof {
            assert(self.nodes@ == before.nodes@.update(i as int, nv));
            assert forall|g: Seq<Seq<char>>| #[trigger] self.children(g) == before.children(g) by {
                assert forall|k: int| 0 <= k < self.nodes@.len() implies #[trigger] self.nodes@[k].pv() == before.nodes@[k].pv() by {
                    if k == i {
                        assert(nv.path == before.nodes@[i as int].path);
                    }
                }
                lemma_children_same_paths(self.nodes@, before.nodes@, g);
            }
            lemma_parents_update(before.nodes@, i as int, nv);
            assert(self.wf());
            self.lemma_node_at(i as int);
            assert forall|q: Seq<Seq<char>>| q != path_view(path@) implies #[trigger] self.node(q) == before.node(q) by {
                if before.holds(q) {
                    let j = choose|j: int| 0 <= j < before.nodes@.len() && #[trigger] before.nodes@[j].pv() == q;
                    before.lemma_node_at(j);
                    self.lemma_node_at(j);
                } else {
                    assert(!self.holds(q));
                }
            }
        }
        Ok(())
    }

    fn create_group(&mut self, parent: &Vec<String>, name: &str) -> (r: Result<(), DataError>) {
        self.insert_child(parent, name, MemContent::Group)
    }

    fn write_array(&mut self, parent: &Vec<String>, name: &str, arr: &DenseArray) -> (r: Result<(), DataError>) {
        self.insert_child(parent, name, MemContent::Dataset(arr.duplicate()))
    }

    fn delete(&mut self, parent: &Vec<String>, name: &str) -> (r: Result<(), DataError>) {
        let target = child_path(parent, name);
        if self.find(&target).is_none() {
            return Err(DataError::NotFound);
        }
        let ghost before = *self;
        let ghost o = self.nodes@;
        let ghost tv = path_view(target@);
        let ghost pv = path_view(parent@);
        assert(tv == pv.push(name@));
        let mut rest: Vec<MemNode> = Vec::new();
        std::mem::swap(&mut rest, &mut self.nodes);
        let total = rest.len();
        let mut kept: Vec<MemNode> = Vec::new();
        let ghost mut idx: Seq<int> = Seq::empty();
        let mut j: usize = 0;
        while j < total
            invariant
                before.wf(),
                o == before.nodes@,
                tv == path_view(target@),
                pv == path_view(parent@),
                tv == pv.push(name@),
                total == o.len(),
                rest@.len() == o.len(),
                j <= total,
                forall|i: int| j <= i < o.len() ==> #[trigger] rest@[i] == o[i],
                idx.len() == kept@.len(),
                forall|k: int| 0 <= k < idx.len() ==> 0 <= #[trigger] idx[k] < j,
                forall|k1: int, k2: int| 0 <= k1 < k2 < idx.len() ==> #[trigger] idx[k1] < #[trigger] idx[k2],
                forall|k: int| 0 <= k < idx.len() ==> kept@[k] == o[#[trigger] idx[k]],
                forall|k: int| 0 <= k < idx.len() ==> !is_prefix(tv, (#[trigger] kept@[k]).pv()),
                forall|i: int| 0 <= i < j && !is_prefix(tv, (#[trigger] o[i]).pv())
                    ==> exists|k: int| 0 <= k < idx.len() && idx[k] == i,
                forall|g: Seq<Seq<char>>| !is_prefix(tv, g) ==> #[trigger] children_in(kept@, g) == if g == pv {
                    without(children_in(o.subrange(0, j as int), g), name@)
                } else {
                    children_in(o.subrange(0, j as int), g)
                },
            decreases total - j,
        {
            let ghost idx0 = idx;
            let ghost kept0 = kept@;
            let mut n = MemNode { path: Vec::new(), attrs: Vec::new(), arr_attrs: Vec::new(), content: MemContent::Group };
            rest.set_and_swap(j, &mut n);
            assert(n == o[j as int]);
            let keep = !has_prefix(&n.path, &target);
            if keep {
                kept.push(n);
                proof {
                    idx = idx.push(j as int);
                    assert(kept@[idx.len() - 1] == o[idx[idx.len() - 1]]);
                }
            }
            proof {
                let sub = o.subrange(0, j as int + 1);
                assert(sub.drop_last() =~= o.subrange(0, j as int));
                assert(sub.last() == o[j as int]);
                let v = o[j as int].pv();
                assert forall|g: Seq<Seq<char>>| !is_prefix(tv, g) implies #[trigger] children_in(kept@, g) == if g == pv {
                    without(children_in(sub, g), name@)
                } else {
                    children_in(sub, g)
                } by {
                    let cs = children_in(sub, g);
                    let co = children_in(o.subrange(0, j as int), g);
                    if keep {
                        assert(kept@.drop_last() =~= kept0);
                        assert(kept@.last() == o[j as int]);
                        if is_child_of(g, v) {
                            assert(children_in(kept@, g) == children_in(kept0, g).push(v.last()));
                            assert(cs == co.push(v.last()));
                            if g == pv {
                                lemma_child_path(g, v);
                                if v.last() == name@ {
                                    assert(v.subrange(0, tv.len() as int) =~= tv);
                                    assert(is_prefix(tv, v));
                                }
                                assert(cs.drop_last() =~= co);
                                assert(without(cs, name@) == without(co, name@).push(v.last()));
                            }
                        } else {
                            assert(children_in(kept@, g) == children_in(kept0, g));
                            assert(cs == co);
                        }
                    } else {
                        assert(kept@ == kept0);
                        assert(is_prefix(tv, v));
                        if is_child_of(g, v) {
                            lemma_child_path(g, v);
                            assert(v.subrange(0, tv.len() as int) == tv);
                            if tv.len() <= g.len() {
                                assert(g.subrange(0, tv.len() as int) =~= v.subrange(0, tv.len() as int));
                                assert(is_prefix(tv, g));
                            }
                            assert(tv.len() == v.len());
                            assert(v =~= tv);
                            assert(g =~= pv) by {
                                assert(g =~= v.drop_last());
                                assert(pv =~= tv.drop_last());
                            }
                            assert(cs == co.push(v.last()));
                            assert(v.last() == name@);
                            assert(cs.drop_last() =~= co);
                            assert(without(cs, name@) == without(co, name@));
                        } else {
                            assert(cs == co);
                        }
                    }
                }
                assert forall|i: int| 0 <= i < j + 1 && !is_prefix(tv, (#[trigger] o[i]).pv())
                    implies exists|k: int| 0 <= k < idx.len() && idx[k] == i by {
                    if i == j {
                        assert(idx[idx.len() - 1] == i);
                    } else {
                        let k = choose|k: int| 0 <= k < idx0.len() && idx0[k] == i;
                        assert(idx[k] == i);
                    }
                }
            }
            j = j + 1;
        }
        proof {
            assert(o.subrange(0, j as int) =~= o);
        }
        self.nodes = kept;
        proof {
            assert(self.wf()) by {
                assert forall|j1: int, j2: int| 0 <= j1 < self.nodes@.len() && 0 <= j2 < self.nodes@.len() && j1 != j2
                    implies #[trigger] self.nodes@[j1].pv() != #[trigger] self.nodes@[j2].pv() by {
                    if j1 < j2 {
                        assert(idx[j1] < idx[j2]);
                    } else {
                        assert(idx[j2] < idx[j1]);
                    }
                    assert(self.nodes@[j1] == o[idx[j1]]);
                    assert(self.nodes@[j2] == o[idx[j2]]);
                }
                assert forall|j: int| 0 <= j < self.nodes@.len() implies (#[trigger] self.nodes@[j]).wf() by {
                    assert(self.nodes@[j] == o[idx[j]]);
                }
                reveal(parents_ok);
                assert forall|k: int| 0 <= k < self.nodes@.len() && (#[trigger] self.nodes@[k]).pv().len() > 0
                    implies exists|j: int| 0 <= j < self.nodes@.len() && self.nodes@[j].pv() == self.nodes@[k].pv().drop_last()
                        && self.nodes@[j].content is Group by {
                    let ok = idx[k];
                    assert(self.nodes@[k] == o[ok]);
                    let v = o[ok].pv();
                    let w = choose|w: int| 0 <= w < o.len() && o[w].pv() == v.drop_last() && o[w].content is Group;
                    assert(!is_prefix(path_view(target@), o[w].pv())) by {
                        if is_prefix(path_view(target@), o[w].pv()) {
                            let t = path_view(target@);
                            assert(v.subrange(0, t.len() as int) =~= v.drop_last().subrange(0, t.len() as int));
                            assert(is_prefix(t, v));
                        }
                    }
                    let m2 = choose|m2: int| 0 <= m2 < idx.len() && idx[m2] == w;
                    assert(self.nodes@[m2] == o[w]);
                }
            }
            assert forall|q: Seq<Seq<char>>| #[trigger] self.node(q) == (if is_prefix(path_view(target@), q) {
                None
            } else {
                before.node(q)
            }) by {
                if self.holds(q) {
                    let j = choose|j: int| 0 <= j < self.nodes@.len() && #[trigger] self.nodes@[j].pv() == q;
                    self.lemma_node_at(j);
                    before.lemma_node_at(idx[j]);
                } else if before.holds(q) && !is_prefix(path_view(target@), q) {
                    let i = choose|i: int| 0 <= i < o.len() && #[trigger] o[i].pv() == q;
                    let j = choose|j: int| 0 <= j < idx.len() && idx[j] == i;
                    assert(self.nodes@[j].pv() == q);
                }
            }
            assert(!is_prefix(tv, pv));
            assert forall|g: Seq<Seq<char>>| g != pv && !is_prefix(tv, g) implies #[trigger] self.children(g) == before.children(g) by {
            }
            assert(self.children(pv) == without(before.children(pv), name@));
        }
        Ok(())
    }
}

/// Two shapes are equal.
fn shapes_equal(a: &Vec<usize>, b: &Vec<usize>) -> (r: bool)
    ensures
        r == (a@ == b@),
{
    if a.len() != b.len() {
        return false;
    }
    let mut k: usize = 0;
    while k < a.len()
        invariant
            a@.len() == b@.len(),
            k <= a@.len(),
            forall|j: int| 0 <= j < k ==> a@[j] == b@[j],
        decreases a@.len() - k,
    {
        if a[k] != b[k] {
            return false;
        }
        k = k + 1;
    }
    assert(a@ =~= b@);
    true
}

/// Writing keeps the number of elements and their type.
proof fn lemma_scatter(shape: Seq<usize>, data: Seq<DynScalar>, pts: Seq<Seq<usize>>, vals: Seq<DynScalar>, t: ScalarType)
    requires
        data.len() == shape_size(shape),
        pts.len() == vals.len(),
        all_in_bounds(shape, pts),
        forall|i: int| 0 <= i < data.len() ==> (#[trigger] data[i]).scalar_type_spec() == t,
        forall|i: int| 0 <= i < vals.len() ==> (#[trigger] vals[i]).scalar_type_spec() == t,
    ensures
        scatter(shape, data, pts, vals).len() == data.len(),
        forall|i: int| 0 <= i < data.len() ==> (#[trigger] scatter(shape, data, pts, vals)[i]).scalar_type_spec() == t,
    decreases pts.len(),
{
    if pts.len() > 0 {
        let pre_pts = pts.drop_last();
        let pre_vals = vals.drop_last();
        assert(all_in_bounds(shape, pre_pts)) by {
            assert forall|i: int| 0 <= i < pre_pts.len() implies crate::array::in_bounds(shape, #[trigger] pre_pts[i]) by {
                assert(pre_pts[i] == pts[i]);
            }
        }
        lemma_scatter(shape, data, pre_pts, pre_vals, t);
        assert(crate::array::in_bounds(shape, pts[pts.len() - 1]));
        crate::array::lemma_flat_index_bounds(shape, pts.last());
    }
}

/// The elements of `a` after writing `values` into it through `sel`.
fn new_elements(a: &DenseArray, sel: &Selection, values: &DenseArray) -> (r: Result<Vec<DynScalar>, DataError>)
    requires
        a.wf(),
        values.wf(),
    ensures
        match written(a.dtype, a.shape@, a.data@, *sel, values.dtype, values.shape@, values.data@) {
            Err(e) => r == Err::<Vec<DynScalar>, DataError>(e),
            Ok(d) => r matches Ok(v) && v@ == d,
        },
        r matches Ok(v) ==> v@.len() == a.data@.len()
            && forall|i: int| 0 <= i < v@.len() ==> (#[trigger] v@[i]).scalar_type_spec() == a.dtype,
{
    if values.dtype != a.dtype {
        return Err(DataError::TypeMismatch);
    }
    match sel {
        Selection::All => {
            if !shapes_equal(&values.shape, &a.shape) {
                return Err(DataError::StructuralPrecondition);
            }
            Ok(values.duplicate().data)
        },
        Selection::Points(pts) => {
            if values.data.len() != pts.len() {
                return Err(DataError::StructuralPrecondition);
            }
            assert(a.data@.len() == a.data.len());
            let mut k: usize = 0;
            while k < pts.len()
                invariant
                    *sel == Selection::Points(*pts),
                    values.dtype == a.dtype,
                    values.data@.len() == pts@.len(),
                    shape_size(a.shape@) <= usize::MAX,
                    k <= pts@.len(),
                    forall|j: int| 0 <= j < k ==> crate::array::in_bounds(a.shape@, #[trigger] pts@[j]@),
                decreases pts@.len() - k,
            {
                if offset(&a.shape, &pts[k]).is_none() {
                    assert(points_view(pts@)[k as int] == pts@[k as int]@);
                    assert(!all_in_bounds(a.shape@, points_view(pts@)));
                    return Err(DataError::StructuralPrecondition);
                }
                k = k + 1;
            }
            assert(all_in_bounds(a.shape@, points_view(pts@)));
            let ghost pv = points_view(pts@);
            let mut out = a.duplicate().data;
            let mut k: usize = 0;
            while k < pts.len()
                invariant
                    a.wf(),
                    values.wf(),
                    values.dtype == a.dtype,
                    shape_size(a.shape@) <= usize::MAX,
                    pv == points_view(pts@),
                    all_in_bounds(a.shape@, pv),
                    values.data@.len() == pts@.len(),
                    k <= pts@.len(),
                    out@ == scatter(a.shape@, a.data@, pv.subrange(0, k as int), values.data@.subrange(0, k as int)),
                decreases pts@.len() - k,
            {
                proof {
                    let ps = pv.subrange(0, k as int);
                    let vs = values.data@.subrange(0, k as int);
                    assert(all_in_bounds(a.shape@, ps)) by {
                        assert forall|i: int| 0 <= i < ps.len() implies crate::array::in_bounds(a.shape@, #[trigger] ps[i]) by {
                            assert(ps[i] == pv[i]);
                        }
                    }
                    lemma_scatter(a.shape@, a.data@, ps, vs, a.dtype);
                    assert(pv[k as int] == pts@[k as int]@);
                }
                let o = offset(&a.shape, &pts[k]).unwrap();
                out.set(o, values.data[k].duplicate());
                proof {
                    let ps = pv.subrange(0, k as int + 1);
                    let vs = values.data@.subrange(0, k as int + 1);
                    assert(ps.drop_last() =~= pv.subrange(0, k as int));
                    assert(vs.drop_last() =~= values.data@.subrange(0, k as int));
                }
                k = k + 1;
            }
            assert(pv.subrange(0, k as int) =~= pv);
            assert(values.data@.subrange(0, k as int) =~= values.data@);
            proof {
                lemma_scatter(a.shape@, a.data@, pv, values.data@, a.dtype);
            }
            Ok(out)
        },
    }
}

impl MemStore {
    /// Adds location `name` under the group at `parent`, holding `content`.
    fn insert_child(&mut self, parent: &Vec<String>, name: &str, content: MemContent) -> (r: Result<(), DataError>)
        requires
            old(self).wf(),
            match content {
                MemContent::Group => true,
                MemContent::Dataset(a) => a.wf(),
            },
        ensures
            final(self).wf(),
            r == create_outcome(old(self).node(path_view(parent@)), old(self).node(path_view(parent@).push(name@))),
            r is Ok ==> final(self).node(path_view(parent@).push(name@)) == Some(
                NodeView { attrs: Seq::empty(), arr_attrs: Seq::empty(), content: content_view(content) },
            ),
            r is Err ==> final(self).node(path_view(parent@).push(name@)) == old(self).node(path_view(parent@).push(name@)),
            forall|q: Seq<Seq<char>>| q != path_view(parent@).push(name@) ==> #[trigger] final(self).node(q) == old(self).node(q),
            r is Ok ==> final(self).children(path_view(parent@)) == old(self).children(path_view(parent@)).push(name@),
            r is Ok ==> forall|x: Seq<char>| #[trigger] final(self).children(path_view(parent@)).contains(x)
                <==> (old(self).children(path_view(parent@)).contains(x) || x == name@),
            forall|g: Seq<Seq<char>>| (r is Err || g != path_view(parent@)) ==> #[trigger] final(self).children(g) == old(self).children(g),
    {
        let pi = match self.find(parent) {
            None => return Err(DataError::NotFound),
            Some(i) => match &self.nodes[i].content {
                MemContent::Group => i,
                MemContent::Dataset(_) => return Err(DataError::NotFound),
            },
        };
        let path = child_path(parent, name);
        if self.find(&path).is_some() {
            return Err(DataError::StructuralPrecondition);
        }
        let ghost before = *self;
        let n = MemNode { path, attrs: Vec::new(), arr_attrs: Vec::new(), content };
        self.nodes.push(n);
        proof {
            let last = before.nodes@.len() as int;
            assert(self.nodes@[last].view().attrs =~= Seq::empty());
            assert(self.nodes@[last].view().arr_attrs =~= Seq::empty());
            assert(self.nodes@ == before.nodes@.push(self.nodes@[last]));
            assert(self.nodes@[last].pv().drop_last() =~= path_view(parent@));
            lemma_parents_push(before.nodes@, self.nodes@[last], pi as int);
            assert(self.wf());
            self.lemma_node_at(last);
            assert(self.nodes@.drop_last() =~= before.nodes@);
            assert forall|g: Seq<Seq<char>>| #[trigger] self.children(g) == if g == path_view(parent@) {
                before.children(g).push(name@)
            } else {
                before.children(g)
            } by {
                let v = self.nodes@[last].pv();
                if is_child_of(g, v) {
                    lemma_child_path(g, v);
                    assert(g =~= v.drop_last());
                    assert(path_view(parent@) =~= v.drop_last());
                }
                if g == path_view(parent@) {
                    assert(v.subrange(0, g.len() as int) =~= g);
                    assert(is_child_of(g, v));
                }
            }
            assert forall|q: Seq<Seq<char>>| q != path_view(parent@).push(name@) implies #[trigger] self.node(q) == before.node(q) by {
                if before.holds(q) {
                    let j = choose|j: int| 0 <= j < before.nodes@.len() && #[trigger] before.nodes@[j].pv() == q;
                    before.lemma_node_at(j);
                    self.lemma_node_at(j);
                } else {
                    assert(!self.holds(q));
                }
            }
            let c0 = before.children(path_view(parent@));
            let c1 = self.children(path_view(parent@));
            assert(c1 == c0.push(name@));
            assert forall|x: Seq<char>| #[trigger] c1.contains(x) <==> (c0.contains(x) || x == name@) by {
                if c0.contains(x) {
                    let k = choose|k: int| 0 <= k < c0.len() && c0[k] == x;
                    assert(c1[k] == x);
                }
                if x == name@ {
                    assert(c1[c1.len() - 1] == x);
                }
                if c1.contains(x) && x != name@ {
                    let k = choose|k: int| 0 <= k < c1.len() && c1[k] == x;
                    assert(c0[k] == x);
                }
            }
        }
        Ok(())
    }
}

} // verus!
