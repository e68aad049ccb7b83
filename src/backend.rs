use vstd::prelude::*;
use crate::array::{all_in_bounds, flat_index, gather, in_bounds, points_view, shape_size, DenseArray};
use crate::scalar::DynScalar;
use crate::types::{DataError, ScalarType};

verus! {

/// A hierarchical path as seen by the contracts: one name per level, the root empty.
pub open spec fn path_view(p: Seq<String>) -> Seq<Seq<char>> {
    p.map_values(|s: String| s@)
}

/// `p` is `q` itself or one of its ancestors.
pub open spec fn is_prefix(p: Seq<Seq<char>>, q: Seq<Seq<char>>) -> bool {
    p.len() <= q.len() && q.subrange(0, p.len() as int) == p
}

/// What a location holds: a group of children, or one homogeneous array.
pub enum NodeContent {
    Group,
    Dataset { dtype: ScalarType, shape: Seq<usize>, data: Seq<DynScalar> },
}

/// The state of one location: its string and string-array attributes, each in the
/// order written, and its content.
pub struct NodeView {
    pub attrs: Seq<(Seq<char>, Seq<char>)>,
    pub arr_attrs: Seq<(Seq<char>, Seq<Seq<char>>)>,
    pub content: NodeContent,
}

/// The value of attribute `name`: the one written last.
pub open spec fn attr_of(attrs: Seq<(Seq<char>, Seq<char>)>, name: Seq<char>) -> Option<Seq<char>>
    decreases attrs.len(),
{
    if attrs.len() == 0 {
        None
    } else if attrs.last().0 == name {
        Some(attrs.last().1)
    } else {
        attr_of(attrs.drop_last(), name)
    }
}

/// The value of string-array attribute `name`: the one written last.
pub open spec fn arr_attr_of(attrs: Seq<(Seq<char>, Seq<Seq<char>>)>, name: Seq<char>) -> Option<Seq<Seq<char>>>
    decreases attrs.len(),
{
    if attrs.len() == 0 {
        None
    } else if attrs.last().0 == name {
        Some(attrs.last().1)
    } else {
        arr_attr_of(attrs.drop_last(), name)
    }
}

/// The two kinds of location.
#[derive(Debug, Clone, Copy, PartialEq, Eq, Structural)]
pub enum NodeKind {
    Group,
    Dataset,
}

pub open spec fn kind_of(n: NodeView) -> NodeKind {
    match n.content {
        NodeContent::Group => NodeKind::Group,
        NodeContent::Dataset { .. } => NodeKind::Dataset,
    }
}

/// The kind of an optional location.
pub open spec fn kind_at(n: Option<NodeView>) -> Option<NodeKind> {
    match n {
        Some(n) => Some(kind_of(n)),
        None => None,
    }
}

/// Which elements of an array a read targets.
#[derive(Debug)]
pub enum Selection {
    /// Every coordinate on every axis.
    All,
    /// An explicit list of multi-indices, in the order the elements are wanted.
    Points(Vec<Vec<usize>>),
}

/// A fresh dataset node holding `arr`, with no attributes.
pub open spec fn dataset_node(dtype: ScalarType, shape: Seq<usize>, data: Seq<DynScalar>) -> NodeView {
    NodeView { attrs: Seq::empty(), arr_attrs: Seq::empty(), content: NodeContent::Dataset { dtype, shape, data } }
}

/// A fresh group node with no attributes.
pub open spec fn group_node() -> NodeView {
    NodeView { attrs: Seq::empty(), arr_attrs: Seq::empty(), content: NodeContent::Group }
}

/// The names of `s` other than `name`, in their order.
pub open spec fn without(s: Seq<Seq<char>>, name: Seq<char>) -> Seq<Seq<char>>
    decreases s.len(),
{
    if s.len() == 0 {
        s
    } else if s.last() == name {
        without(s.drop_last(), name)
    } else {
        without(s.drop_last(), name).push(s.last())
    }
}

/// The optional location is a group.
pub open spec fn is_group_at(n: Option<NodeView>) -> bool {
    n matches Some(g) && g.content is Group
}

/// A dataset holds one element of its type per position of its shape.
pub open spec fn content_wf(c: NodeContent) -> bool {
    match c {
        NodeContent::Group => true,
        NodeContent::Dataset { dtype, shape, data } => {
            &&& data.len() == shape_size(shape)
            &&& forall|i: int| 0 <= i < data.len() ==> (#[trigger] data[i]).scalar_type_spec() == dtype
        },
    }
}

/// Nothing lies below a location that does not exist.
pub proof fn lemma_no_orphans<B: Backend>(store: &B, p: Seq<Seq<char>>, q: Seq<Seq<char>>)
    requires
        store.wf(),
        store.node(p) is None,
        strictly_below(p, q),
    ensures
        store.node(q) is None,
    decreases q.len(),
{
    if store.node(q) is Some {
        store.lemma_stored(q);
        let up = q.drop_last();
        if up.len() == p.len() {
            assert(up =~= q.subrange(0, p.len() as int));
        } else {
            assert(up.subrange(0, p.len() as int) =~= q.subrange(0, p.len() as int));
            lemma_no_orphans(store, p, up);
        }
    }
}

/// Removing a name keeps every other name and drops that one.
pub proof fn lemma_without_contains(s: Seq<Seq<char>>, name: Seq<char>)
    ensures
        forall|x: Seq<char>| #[trigger] without(s, name).contains(x) <==> (s.contains(x) && x != name),
    decreases s.len(),
{
    if s.len() > 0 {
        let d = s.drop_last();
        lemma_without_contains(d, name);
        assert forall|x: Seq<char>| #[trigger] without(s, name).contains(x) <==> (s.contains(x) && x != name) by {
            if s.contains(x) && x != name {
                let i = choose|i: int| 0 <= i < s.len() && s[i] == x;
                if i < s.len() - 1 {
                    assert(d[i] == x);
                    assert(without(d, name).contains(x));
                    let k = choose|k: int| 0 <= k < without(d, name).len() && without(d, name)[k] == x;
                    if s.last() != name {
                        assert(without(s, name)[k] == x);
                    }
                } else {
                    assert(without(s, name).last() == x);
                }
            }
            if without(s, name).contains(x) {
                let k = choose|k: int| 0 <= k < without(s, name).len() && without(s, name)[k] == x;
                if s.last() != name && k == without(s, name).len() - 1 {
                    assert(s[s.len() - 1] == x);
                } else {
                    assert(without(d, name)[k] == x);
                    assert(without(d, name).contains(x));
                    let i = choose|i: int| 0 <= i < d.len() && d[i] == x;
                    assert(s[i] == x);
                }
            }
        }
    }
}

/// A path is a prefix of itself.
pub proof fn lemma_prefix_refl(p: Seq<Seq<char>>)
    ensures
        is_prefix(p, p),
{
    assert(p.subrange(0, p.len() as int) =~= p);
}

/// `q` lies strictly below `p`.
pub open spec fn strictly_below(p: Seq<Seq<char>>, q: Seq<Seq<char>>) -> bool {
    is_prefix(p, q) && q.len() > p.len()
}

/// The path of `q` relative to its ancestor `p`.
pub open spec fn rel_path(p: Seq<Seq<char>>, q: Seq<Seq<char>>) -> Seq<Seq<char>> {
    q.subrange(p.len() as int, q.len() as int)
}

/// The outcome owed when a child `name` is created under `parent`: the parent must
/// be a group, and the name must be free.
pub open spec fn create_outcome(parent: Option<NodeView>, child: Option<NodeView>) -> Result<(), DataError> {
    match parent {
        Some(n) if n.content is Group => if child is Some {
            Err(DataError::StructuralPrecondition)
        } else {
            Ok(())
        },
        _ => Err(DataError::NotFound),
    }
}

/// The shape and elements owed by a read of `sel` from a dataset (`None`: the read
/// fails with an out-of-range coordinate). A point read gives a one-dimensional array.
pub open spec fn selected(dtype: ScalarType, shape: Seq<usize>, data: Seq<DynScalar>, sel: Selection) -> Option<(Seq<usize>, Seq<DynScalar>)> {
    match sel {
        Selection::All => Some((shape, data)),
        Selection::Points(pts) => if all_in_bounds(shape, points_view(pts@)) {
            Some((seq![pts@.len() as usize], gather(shape, data, points_view(pts@))))
        } else {
            None
        },
    }
}

/// The path of child `name` of `parent`.
pub fn child_path(parent: &Vec<String>, name: &str) -> (r: Vec<String>)
    ensures
        path_view(r@) == path_view(parent@).push(name@),
{
    let mut r: Vec<String> = Vec::new();
    let mut k: usize = 0;
    while k < parent.len()
        invariant
            k <= parent@.len(),
            r@.len() == k,
            forall|j: int| 0 <= j < k ==> r@[j]@ == parent@[j]@,
        decreases parent@.len() - k,
    {
        r.push(parent[k].clone());
        k = k + 1;
    }
    r.push(name.to_owned());
    assert(path_view(r@) =~= path_view(parent@).push(name@));
    r
}

/// A copy of the first `n` names of `path`.
pub fn path_prefix(path: &Vec<String>, n: usize) -> (r: Vec<String>)
    requires
        n <= path@.len(),
    ensures
        path_view(r@) == path_view(path@).subrange(0, n as int),
{
    let mut r: Vec<String> = Vec::new();
    let mut k: usize = 0;
    while k < n
        invariant
            n <= path@.len(),
            k <= n,
            r@.len() == k,
            forall|j: int| 0 <= j < k ==> r@[j]@ == path@[j]@,
        decreases n - k,
    {
        r.push(path[k].clone());
        k = k + 1;
    }
    assert(path_view(r@) =~= path_view(path@).subrange(0, n as int));
    r
}

/// The elements after writing `vals` at the multi-indices `pts`, one after the other.
pub open spec fn scatter(shape: Seq<usize>, data: Seq<DynScalar>, pts: Seq<Seq<usize>>, vals: Seq<DynScalar>) -> Seq<DynScalar>
    decreases pts.len(),
{
    if pts.len() == 0 || vals.len() == 0 {
        data
    } else {
        scatter(shape, data, pts.drop_last(), vals.drop_last()).update(flat_index(shape, pts.last()), vals.last())
    }
}

/// The elements a dataset holds after writing `values` (of type `vtype`, shape
/// `vshape`, elements `vdata`) into it through `sel`, or why the write is refused.
pub open spec fn written(
    dtype: ScalarType,
    shape: Seq<usize>,
    data: Seq<DynScalar>,
    sel: Selection,
    vtype: ScalarType,
    vshape: Seq<usize>,
    vdata: Seq<DynScalar>,
) -> Result<Seq<DynScalar>, DataError> {
    if vtype != dtype {
        Err(DataError::TypeMismatch)
    } else {
        match sel {
            Selection::All => if vshape == shape {
                Ok(vdata)
            } else {
                Err(DataError::StructuralPrecondition)
            },
            Selection::Points(pts) => if vdata.len() == pts@.len() && all_in_bounds(shape, points_view(pts@)) {
                Ok(scatter(shape, data, points_view(pts@), vdata))
            } else {
                Err(DataError::StructuralPrecondition)
            },
        }
    }
}

/// A point read fails when some multi-index is out of range; otherwise it gives one
/// element per requested multi-index, in the order requested.
pub proof fn lemma_point_read(dtype: ScalarType, shape: Seq<usize>, data: Seq<DynScalar>, pts: Vec<Vec<usize>>)
    ensures
        (exists|i: int| 0 <= i < pts@.len() && !in_bounds(shape, #[trigger] pts@[i]@))
            ==> selected(dtype, shape, data, Selection::Points(pts)) is None,
        (forall|i: int| 0 <= i < pts@.len() ==> in_bounds(shape, #[trigger] pts@[i]@))
            ==> (selected(dtype, shape, data, Selection::Points(pts)) matches Some((s, d)) && s == seq![
            pts@.len() as usize] && d.len() == pts@.len() && forall|i: int|
            0 <= i < pts@.len() ==> #[trigger] d[i] == data[flat_index(shape, pts@[i]@)]),
{
    if exists|i: int| 0 <= i < pts@.len() && !in_bounds(shape, #[trigger] pts@[i]@) {
        let i = choose|i: int| 0 <= i < pts@.len() && !in_bounds(shape, #[trigger] pts@[i]@);
        assert(points_view(pts@)[i] == pts@[i]@);
    }
    if forall|i: int| 0 <= i < pts@.len() ==> in_bounds(shape, #[trigger] pts@[i]@) {
        assert(all_in_bounds(shape, points_view(pts@)));
    }
}

/// The capability set of a storage backend: a file holding a hierarchy of groups
/// and datasets, each carrying string attributes. Locations are addressed by path.
pub trait Backend: Sized {
    /// The backend's internal consistency.
    spec fn wf(&self) -> bool;

    /// The location at path `p`, if any.
    spec fn node(&self, p: Seq<Seq<char>>) -> Option<NodeView>;

    /// What is stored is consistent: a dataset holds one element of its type per
    /// position of its shape, and every location but the root lies in a group.
    proof fn lemma_stored(&self, p: Seq<Seq<char>>)
        requires
            self.wf(),
        ensures
            self.node(p) matches Some(n) ==> content_wf(n.content),
            self.node(p) is Some && p.len() > 0 ==> is_group_at(self.node(p.drop_last())),
    ;

    /// The names of the direct children of `p`, in the backend's listing order.
    spec fn children(&self, p: Seq<Seq<char>>) -> Seq<Seq<char>>;

    /// Each child is listed once, and exactly the existing children are listed.
    proof fn lemma_children(&self, p: Seq<Seq<char>>)
        requires
            self.wf(),
        ensures
            self.children(p).no_duplicates(),
            forall|name: Seq<char>| #[trigger] self.children(p).contains(name) <==> self.node(p.push(name)) is Some,
    ;

    /// The kind of the location at `path`, or `None` when nothing is there.
    fn kind(&self, path: &Vec<String>) -> (r: Option<NodeKind>)
        requires
            self.wf(),
        ensures
            r == kind_at(self.node(path_view(path@))),
    ;

    /// The names of the direct children of the group at `path`.
    fn list(&self, path: &Vec<String>) -> (r: Result<Vec<String>, DataError>)
        requires
            self.wf(),
        ensures
            match self.node(path_view(path@)) {
                None => r == Err::<Vec<String>, DataError>(DataError::NotFound),
                Some(n) => if n.content is Dataset {
                    r == Err::<Vec<String>, DataError>(DataError::TypeMismatch)
                } else {
                    &&& r is Ok
                    &&& path_view(r->Ok_0@) == self.children(path_view(path@))
                    &&& forall|i: int| 0 <= i < r->Ok_0@.len()
                        ==> self.node(path_view(path@).push(#[trigger] r->Ok_0@[i]@)) is Some
                    &&& forall|name: Seq<char>| #[trigger] self.node(path_view(path@).push(name)) is Some
                        ==> exists|i: int| 0 <= i < r->Ok_0@.len() && r->Ok_0@[i]@ == name
                },
            },
    ;

    /// Reads string attribute `name` of the location at `path`.
    fn read_str_attr(&self, path: &Vec<String>, name: &str) -> (r: Result<String, DataError>)
        requires
            self.wf(),
        ensures
            match self.node(path_view(path@)) {
                None => r == Err::<String, DataError>(DataError::NotFound),
                Some(n) => match attr_of(n.attrs, name@) {
                    None => r == Err::<String, DataError>(DataError::NotFound),
                    Some(v) => r is Ok && r->Ok_0@ == v,
                },
            },
    ;

    /// Writes string attribute `name` of the location at `path`.
    fn write_str_attr(&mut self, path: &Vec<String>, name: &str, value: &str) -> (r: Result<(), DataError>)
        requires
            old(self).wf(),
        ensures
            final(self).wf(),
            match old(self).node(path_view(path@)) {
                None => r == Err::<(), DataError>(DataError::NotFound),
                Some(n) => r is Ok && final(self).node(path_view(path@)) == Some(
                    NodeView { attrs: n.attrs.push((name@, value@)), arr_attrs: n.arr_attrs, content: n.content },
                ),
            },
            forall|q: Seq<Seq<char>>| q != path_view(path@) ==> #[trigger] final(self).node(q) == old(self).node(q),
            old(self).node(path_view(path@)) is None ==> final(self).node(path_view(path@)) is None,
            forall|g: Seq<Seq<char>>| #[trigger] final(self).children(g) == old(self).children(g),
    ;

    /// Reads string-array attribute `name` of the location at `path`.
    fn read_str_arr_attr(&self, path: &Vec<String>, name: &str) -> (r: Result<Vec<String>, DataError>)
        requires
            self.wf(),
        ensures
            match self.node(path_view(path@)) {
                None => r == Err::<Vec<String>, DataError>(DataError::NotFound),
                Some(n) => match arr_attr_of(n.arr_attrs, name@) {
                    None => r == Err::<Vec<String>, DataError>(DataError::NotFound),
                    Some(v) => r is Ok && path_view(r->Ok_0@) == v,
                },
            },
    ;

    /// Writes string-array attribute `name` of the location at `path`.
    fn write_str_arr_attr(&mut self, path: &Vec<String>, name: &str, value: &Vec<String>) -> (r: Result<(), DataError>)
        requires
            old(self).wf(),
        ensures
            final(self).wf(),
            match old(self).node(path_view(path@)) {
                None => r == Err::<(), DataError>(DataError::NotFound),
                Some(n) => r is Ok && final(self).node(path_view(path@)) == Some(
                    NodeView { attrs: n.attrs, arr_attrs: n.arr_attrs.push((name@, path_view(value@))), content: n.content },
                ),
            },
            forall|q: Seq<Seq<char>>| q != path_view(path@) ==> #[trigger] final(self).node(q) == old(self).node(q),
            old(self).node(path_view(path@)) is None ==> final(self).node(path_view(path@)) is None,
            forall|g: Seq<Seq<char>>| #[trigger] final(self).children(g) == old(self).children(g),
    ;

    /// The element type of the dataset at `path`.
    fn dtype(&self, path: &Vec<String>) -> (r: Result<ScalarType, DataError>)
        requires
            self.wf(),
        ensures
            match self.node(path_view(path@)) {
                None => r == Err::<ScalarType, DataError>(DataError::NotFound),
                Some(n) => match n.content {
                    NodeContent::Group => r == Err::<ScalarType, DataError>(DataError::TypeMismatch),
                    NodeContent::Dataset { dtype, .. } => r == Ok::<ScalarType, DataError>(dtype),
                },
            },
    ;

    /// The shape of the dataset at `path`, read without loading its data.
    fn shape(&self, path: &Vec<String>) -> (r: Result<Vec<usize>, DataError>)
        requires
            self.wf(),
        ensures
            match self.node(path_view(path@)) {
                None => r == Err::<Vec<usize>, DataError>(DataError::NotFound),
                Some(n) => match n.content {
                    NodeContent::Group => r == Err::<Vec<usize>, DataError>(DataError::TypeMismatch),
                    NodeContent::Dataset { shape, .. } => r is Ok && r->Ok_0@ == shape,
                },
            },
    ;

    /// Reads the elements of the dataset at `path` that `sel` names.
    fn read_array(&self, path: &Vec<String>, sel: &Selection) -> (r: Result<DenseArray, DataError>)
        requires
            self.wf(),
        ensures
            match self.node(path_view(path@)) {
                None => r == Err::<DenseArray, DataError>(DataError::NotFound),
                Some(n) => match n.content {
                    NodeContent::Group => r == Err::<DenseArray, DataError>(DataError::TypeMismatch),
                    NodeContent::Dataset { dtype, shape, data } => match selected(dtype, shape, data, *sel) {
                        None => r == Err::<DenseArray, DataError>(DataError::StructuralPrecondition),
                        Some((s, d)) => r matches Ok(a) && a.wf() && a.dtype == dtype && a.shape@ == s && a.data@ == d,
                    },
                },
            },
    ;

    /// Writes `values` into the existing dataset at `path` through `sel`: the whole
    /// array for `All`, one element per multi-index, in order, for `Points`.
    fn write_selection(&mut self, path: &Vec<String>, sel: &Selection, values: &DenseArray) -> (r: Result<(), DataError>)
        requires
            old(self).wf(),
            values.wf(),
        ensures
            final(self).wf(),
            match old(self).node(path_view(path@)) {
                None => r == Err::<(), DataError>(DataError::NotFound) && final(self).node(path_view(path@)) is None,
                Some(n) => match n.content {
                    NodeContent::Group => r == Err::<(), DataError>(DataError::TypeMismatch)
                        && final(self).node(path_view(path@)) == Some(n),
                    NodeContent::Dataset { dtype, shape, data } => match written(
                        dtype,
                        shape,
                        data,
                        *sel,
                        values.dtype,
                        values.shape@,
                        values.data@,
                    ) {
                        Err(e) => r == Err::<(), DataError>(e) && final(self).node(path_view(path@)) == Some(n),
                        Ok(d) => r is Ok && final(self).node(path_view(path@)) == Some(
                            NodeView { attrs: n.attrs, arr_attrs: n.arr_attrs, content: NodeContent::Dataset { dtype, shape, data: d } },
                        ),
                    },
                },
            },
            forall|q: Seq<Seq<char>>| q != path_view(path@) ==> #[trigger] final(self).node(q) == old(self).node(q),
            forall|g: Seq<Seq<char>>| #[trigger] final(self).children(g) == old(self).children(g),
    ;

    /// Creates an empty group `name` under the group at `parent`.
    fn create_group(&mut self, parent: &Vec<String>, name: &str) -> (r: Result<(), DataError>)
        requires
            old(self).wf(),
        ensures
            final(self).wf(),
            r == create_outcome(old(self).node(path_view(parent@)), old(self).node(path_view(parent@).push(name@))),
            r is Ok ==> final(self).node(path_view(parent@).push(name@)) == Some(group_node()),
            r is Err ==> final(self).node(path_view(parent@).push(name@)) == old(self).node(path_view(parent@).push(name@)),
            forall|q: Seq<Seq<char>>| q != path_view(parent@).push(name@) ==> #[trigger] final(self).node(q) == old(self).node(q),
            r is Ok ==> forall|x: Seq<char>| #[trigger] final(self).children(path_view(parent@)).contains(x)
                <==> (old(self).children(path_view(parent@)).contains(x) || x == name@),
            forall|g: Seq<Seq<char>>| (r is Err || g != path_view(parent@)) ==> #[trigger] final(self).children(g) == old(self).children(g),
    ;

    /// Creates dataset `name` under the group at `parent`, holding `arr`.
    fn write_array(&mut self, parent: &Vec<String>, name: &str, arr: &DenseArray) -> (r: Result<(), DataError>)
        requires
            old(self).wf(),
            arr.wf(),
        ensures
            final(self).wf(),
            r == create_outcome(old(self).node(path_view(parent@)), old(self).node(path_view(parent@).push(name@))),
            r is Ok ==> final(self).node(path_view(parent@).push(name@)) == Some(dataset_node(arr.dtype, arr.shape@, arr.data@)),
            r is Err ==> final(self).node(path_view(parent@).push(name@)) == old(self).node(path_view(parent@).push(name@)),
            forall|q: Seq<Seq<char>>| q != path_view(parent@).push(name@) ==> #[trigger] final(self).node(q) == old(self).node(q),
            r is Ok ==> forall|x: Seq<char>| #[trigger] final(self).children(path_view(parent@)).contains(x)
                <==> (old(self).children(path_view(parent@)).contains(x) || x == name@),
            forall|g: Seq<Seq<char>>| (r is Err || g != path_view(parent@)) ==> #[trigger] final(self).children(g) == old(self).children(g),
    ;

    /// Removes the child `name` of the group at `parent`, with everything below it.
    fn delete(&mut self, parent: &Vec<String>, name: &str) -> (r: Result<(), DataError>)
        requires
            old(self).wf(),
        ensures
            final(self).wf(),
            r is Ok <==> old(self).node(path_view(parent@).push(name@)) is Some,
            r is Err ==> r == Err::<(), DataError>(DataError::NotFound),
            forall|q: Seq<Seq<char>>| #[trigger] final(self).node(q) == if r is Ok && is_prefix(path_view(parent@).push(name@), q) {
                None
            } else {
                old(self).node(q)
            },
            r is Ok ==> final(self).children(path_view(parent@)) == without(old(self).children(path_view(parent@)), name@),
            forall|g: Seq<Seq<char>>| (r is Err || (g != path_view(parent@) && !is_prefix(path_view(parent@).push(name@), g)))
                ==> #[trigger] final(self).children(g) == old(self).children(g),
    ;
}

} // verus!
