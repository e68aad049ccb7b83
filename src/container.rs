use vstd::prelude::*;
use crate::backend::{
    arr_attr_of, attr_of, child_path, without, is_prefix, path_prefix, path_view, Backend, NodeContent,
    NodeKind, NodeView,
};
use crate::types::{DataError, DataType, ScalarType};

verus! {

/// A handle to a group, by its path from the root.
#[derive(Debug)]
pub struct Group {
    pub path: Vec<String>,
}

/// A handle to a dataset, by its path from the root.
#[derive(Debug)]
pub struct Dataset {
    pub path: Vec<String>,
}

/// An opened location: exactly one of a group or a dataset.
#[derive(Debug)]
pub enum DataContainer {
    Group(Group),
    Dataset(Dataset),
}

/// The reserved attribute that records a container's logical type.
pub open spec fn encoding_attr() -> Seq<char> {
    "encoding_type"@
}

/// The element type of an optional location, read as a dataset.
pub open spec fn dataset_dtype(n: Option<NodeView>) -> Result<ScalarType, DataError> {
    match n {
        None => Err(DataError::NotFound),
        Some(n) => match n.content {
            NodeContent::Group => Err(DataError::TypeMismatch),
            NodeContent::Dataset { dtype, .. } => Ok(dtype),
        },
    }
}

/// Wraps an element type, or passes its failure on.
pub open spec fn with_dtype(t: Result<ScalarType, DataError>, f: spec_fn(ScalarType) -> DataType) -> Result<DataType, DataError> {
    match t {
        Ok(t) => Ok(f(t)),
        Err(e) => Err(e),
    }
}

impl DataContainer {
    pub open spec fn path_spec(&self) -> Seq<Seq<char>> {
        match self {
            DataContainer::Group(g) => path_view(g.path@),
            DataContainer::Dataset(d) => path_view(d.path@),
        }
    }

    /// The encoding tag of the container: the reserved attribute when present, else
    /// `mapping` for a group and `numeric-scalar` for a dataset.
    pub open spec fn tag_spec(&self, n: Option<NodeView>) -> Seq<char> {
        let written = match n {
            Some(n) => attr_of(n.attrs, encoding_attr()),
            None => None,
        };
        match written {
            Some(t) => t,
            None => if self is Group {
                "mapping"@
            } else {
                "numeric-scalar"@
            },
        }
    }

    /// The logical type that the tag `tag` resolves to, given the container's own
    /// location `own` and, for a sparse matrix, its `data` child.
    pub open spec fn resolve_spec(&self, tag: Seq<char>, own: Option<NodeView>, data_child: Option<NodeView>) -> Result<DataType, DataError> {
        let own_dtype = if self is Dataset {
            dataset_dtype(own)
        } else {
            Err(DataError::TypeMismatch)
        };
        if tag == "string"@ {
            Ok(DataType::Scalar(ScalarType::String))
        } else if tag == "numeric-scalar"@ {
            with_dtype(own_dtype, |t: ScalarType| DataType::Scalar(t))
        } else if tag == "categorical"@ {
            Ok(DataType::Categorical)
        } else if tag == "string-array"@ {
            Ok(DataType::Array(ScalarType::String))
        } else if tag == "array"@ {
            with_dtype(own_dtype, |t: ScalarType| DataType::Array(t))
        } else if tag == "csc_matrix"@ {
            Err(DataError::UnsupportedEncoding)
        } else if tag == "csr_matrix"@ {
            if self is Group {
                with_dtype(dataset_dtype(data_child), |t: ScalarType| DataType::CsrMatrix(t))
            } else {
                Err(DataError::TypeMismatch)
            }
        } else if tag == "dataframe"@ {
            Ok(DataType::DataFrame)
        } else if tag == "mapping"@ || tag == "dict"@ {
            Ok(DataType::Mapping)
        } else {
            Err(DataError::UnsupportedEncoding)
        }
    }

    /// The logical type of the container in the state of `store`.
    pub open spec fn data_type_in<B: Backend>(&self, store: &B) -> Result<DataType, DataError> {
        let own = store.node(self.path_spec());
        self.resolve_spec(self.tag_spec(own), own, store.node(self.path_spec().push("data"@)))
    }

    fn path_ref(&self) -> (r: &Vec<String>)
        ensures
            path_view(r@) == self.path_spec(),
    {
        match self {
            DataContainer::Group(g) => &g.path,
            DataContainer::Dataset(d) => &d.path,
        }
    }

    /// The container's path from the root.
    pub fn path(&self) -> (r: Vec<String>)
        ensures
            path_view(r@) == self.path_spec(),
    {
        let p = self.path_ref();
        let r = path_prefix(p, p.len());
        assert(path_view(p@).subrange(0, p@.len() as int) =~= path_view(p@));
        r
    }

    /// Opens child `name` of `group`: as a dataset when it is one, else as a group.
    pub fn open<B: Backend>(store: &B, group: &Group, name: &str) -> (r: Result<DataContainer, DataError>)
        requires
            store.wf(),
        ensures
            match store.node(path_view(group.path@).push(name@)) {
                None => r == Err::<DataContainer, DataError>(DataError::NotFound),
                Some(n) => r matches Ok(c) && c.path_spec() == path_view(group.path@).push(name@) && (
                    c is Dataset <==> n.content is Dataset),
            },
    {
        let path = child_path(&group.path, name);
        match store.kind(&path) {
            None => Err(DataError::NotFound),
            Some(NodeKind::Dataset) => Ok(DataContainer::Dataset(Dataset { path })),
            Some(NodeKind::Group) => Ok(DataContainer::Group(Group { path })),
        }
    }

    /// Resolves the container's logical type from its encoding tag.
    pub fn encoding_type<B: Backend>(&self, store: &B) -> (r: Result<DataType, DataError>)
        requires
            store.wf(),
        ensures
            r == self.data_type_in(store),
    {
        let p = self.path_ref();
        let tag = match store.read_str_attr(p, "encoding_type") {
            Ok(t) => t,
            Err(_) => match self {
                DataContainer::Group(_) => "mapping".to_owned(),
                DataContainer::Dataset(_) => "numeric-scalar".to_owned(),
            },
        };
        proof {
            reveal_strlit("encoding_type");
        }
        assert(tag@ == self.tag_spec(store.node(self.path_spec())));
        if eq_str(&tag, "string") {
            Ok(DataType::Scalar(ScalarType::String))
        } else if eq_str(&tag, "numeric-scalar") {
            Ok(DataType::Scalar(self.own_dtype(store)?))
        } else if eq_str(&tag, "categorical") {
            Ok(DataType::Categorical)
        } else if eq_str(&tag, "string-array") {
            Ok(DataType::Array(ScalarType::String))
        } else if eq_str(&tag, "array") {
            Ok(DataType::Array(self.own_dtype(store)?))
        } else if eq_str(&tag, "csc_matrix") {
            Err(DataError::UnsupportedEncoding)
        } else if eq_str(&tag, "csr_matrix") {
            let g = self.as_group()?;
            let child = child_path(&g.path, "data");
            Ok(DataType::CsrMatrix(store.dtype(&child)?))
        } else if eq_str(&tag, "dataframe") {
            Ok(DataType::DataFrame)
        } else if eq_str(&tag, "mapping") || eq_str(&tag, "dict") {
            Ok(DataType::Mapping)
        } else {
            Err(DataError::UnsupportedEncoding)
        }
    }

    /// The element type of the container, which must be a dataset.
    fn own_dtype<B: Backend>(&self, store: &B) -> (r: Result<ScalarType, DataError>)
        requires
            store.wf(),
        ensures
            r == (if self is Dataset {
                dataset_dtype(store.node(self.path_spec()))
            } else {
                Err(DataError::TypeMismatch)
            }),
    {
        let d = self.as_dataset()?;
        store.dtype(&d.path)
    }

    /// The group the container holds.
    pub fn as_group(&self) -> (r: Result<&Group, DataError>)
        ensures
            match self {
                DataContainer::Group(g) => r == Ok::<&Group, DataError>(g),
                DataContainer::Dataset(_) => r == Err::<&Group, DataError>(DataError::TypeMismatch),
            },
    {
        match self {
            DataContainer::Group(g) => Ok(g),
            DataContainer::Dataset(_) => Err(DataError::TypeMismatch),
        }
    }

    /// The dataset the container holds.
    pub fn as_dataset(&self) -> (r: Result<&Dataset, DataError>)
        ensures
            match self {
                DataContainer::Dataset(d) => r == Ok::<&Dataset, DataError>(d),
                DataContainer::Group(_) => r == Err::<&Dataset, DataError>(DataError::TypeMismatch),
            },
    {
        match self {
            DataContainer::Dataset(d) => Ok(d),
            DataContainer::Group(_) => Err(DataError::TypeMismatch),
        }
    }

    /// Reads string attribute `name` of the container.
    pub fn read_str_attr<B: Backend>(&self, store: &B, name: &str) -> (r: Result<String, DataError>)
        requires
            store.wf(),
        ensures
            match store.node(self.path_spec()) {
                None => r == Err::<String, DataError>(DataError::NotFound),
                Some(n) => match attr_of(n.attrs, name@) {
                    None => r == Err::<String, DataError>(DataError::NotFound),
                    Some(v) => r is Ok && r->Ok_0@ == v,
                },
            },
    {
        store.read_str_attr(self.path_ref(), name)
    }

    /// Writes string attribute `name` of the container.
    pub fn write_str_attr<B: Backend>(&self, store: &mut B, name: &str, value: &str) -> (r: Result<(), DataError>)
        requires
            old(store).wf(),
        ensures
            final(store).wf(),
            match old(store).node(self.path_spec()) {
                None => r == Err::<(), DataError>(DataError::NotFound),
                Some(n) => r is Ok && final(store).node(self.path_spec()) == Some(
                    NodeView { attrs: n.attrs.push((name@, value@)), arr_attrs: n.arr_attrs, content: n.content },
                ),
            },
            forall|q: Seq<Seq<char>>| q != self.path_spec() ==> #[trigger] final(store).node(q) == old(store).node(q),
            old(store).node(self.path_spec()) is None ==> final(store).node(self.path_spec()) is None,
            forall|g: Seq<Seq<char>>| #[trigger] final(store).children(g) == old(store).children(g),
    {
        store.write_str_attr(self.path_ref(), name, value)
    }

    /// Reads string-array attribute `name` of the container.
    pub fn read_str_arr_attr<B: Backend>(&self, store: &B, name: &str) -> (r: Result<Vec<String>, DataError>)
        requires
            store.wf(),
        ensures
            match store.node(self.path_spec()) {
                None => r == Err::<Vec<String>, DataError>(DataError::NotFound),
                Some(n) => match arr_attr_of(n.arr_attrs, name@) {
                    None => r == Err::<Vec<String>, DataError>(DataError::NotFound),
                    Some(v) => r is Ok && path_view(r->Ok_0@) == v,
                },
            },
    {
        store.read_str_arr_attr(self.path_ref(), name)
    }

    /// Writes string-array attribute `name` of the container.
    pub fn write_str_arr_attr<B: Backend>(&self, store: &mut B, name: &str, value: &Vec<String>) -> (r: Result<(), DataError>)
        requires
            old(store).wf(),
        ensures
            final(store).wf(),
            match old(store).node(self.path_spec()) {
                None => r == Err::<(), DataError>(DataError::NotFound),
                Some(n) => r is Ok && final(store).node(self.path_spec()) == Some(
                    NodeView { attrs: n.attrs, arr_attrs: n.arr_attrs.push((name@, path_view(value@))), content: n.content },
                ),
            },
            forall|q: Seq<Seq<char>>| q != self.path_spec() ==> #[trigger] final(store).node(q) == old(store).node(q),
            old(store).node(self.path_spec()) is None ==> final(store).node(self.path_spec()) is None,
            forall|g: Seq<Seq<char>>| #[trigger] final(store).children(g) == old(store).children(g),
    {
        store.write_str_arr_attr(self.path_ref(), name, value)
    }

    /// Deletes the container, with everything below it, from its parent group. The
    /// root cannot be deleted.
    pub fn delete<B: Backend>(container: DataContainer, store: &mut B) -> (r: Result<(), DataError>)
        requires
            old(store).wf(),
        ensures
            final(store).wf(),
            container.path_spec().len() == 0 ==> r == Err::<(), DataError>(DataError::StructuralPrecondition),
            container.path_spec().len() > 0 ==> (r is Ok <==> old(store).node(container.path_spec()) is Some),
            container.path_spec().len() > 0 && r is Err ==> r == Err::<(), DataError>(DataError::NotFound),
            forall|q: Seq<Seq<char>>| #[trigger] final(store).node(q) == if r is Ok && is_prefix(container.path_spec(), q) {
                None
            } else {
                old(store).node(q)
            },
            r is Ok ==> final(store).children(container.path_spec().drop_last()) == without(
                old(store).children(container.path_spec().drop_last()),
                container.path_spec().last(),
            ),
            forall|g: Seq<Seq<char>>| (r is Err || (g != container.path_spec().drop_last() && !is_prefix(container.path_spec(), g)))
                ==> #[trigger] final(store).children(g) == old(store).children(g),
    {
        let p = container.path_ref();
        let n = p.len();
        if n == 0 {
            return Err(DataError::StructuralPrecondition);
        }
        let parent = path_prefix(p, n - 1);
        assert(path_view(parent@).push(p@[n - 1]@) =~= path_view(p@));
        assert(path_view(parent@) =~= path_view(p@).drop_last());
        store.delete(&parent, p[n - 1].as_str())
    }
}

/// Every direct child of `group`, by name, opened as a container.
pub fn iter_containers<B: Backend>(store: &B, group: &Group) -> (r: Result<Vec<(String, DataContainer)>, DataError>)
    requires
        store.wf(),
    ensures
        match store.node(path_view(group.path@)) {
            None => r == Err::<Vec<(String, DataContainer)>, DataError>(DataError::NotFound),
            Some(n) => if n.content is Dataset {
                r == Err::<Vec<(String, DataContainer)>, DataError>(DataError::TypeMismatch)
            } else {
                &&& r is Ok
                &&& r->Ok_0@.len() == store.children(path_view(group.path@)).len()
                &&& forall|i: int| 0 <= i < r->Ok_0@.len() ==> (#[trigger] r->Ok_0@[i]).0@ == store.children(path_view(group.path@))[i]
                &&& forall|i: int| 0 <= i < r->Ok_0@.len() ==> {
                    let (name, c) = #[trigger] r->Ok_0@[i];
                    &&& c.path_spec() == path_view(group.path@).push(name@)
                    &&& store.node(c.path_spec()) matches Some(m) && (c is Dataset <==> m.content is Dataset)
                }
                &&& forall|name: Seq<char>| #[trigger] store.node(path_view(group.path@).push(name)) is Some
                    ==> exists|i: int| 0 <= i < r->Ok_0@.len() && r->Ok_0@[i].0@ == name
            },
        },
{
    let names = store.list(&group.path)?;
    let mut out: Vec<(String, DataContainer)> = Vec::new();
    let mut i: usize = 0;
    while i < names.len()
        invariant
            store.wf(),
            i <= names@.len(),
            out@.len() == i,
            forall|k: int| 0 <= k < names@.len() ==> store.node(path_view(group.path@).push(#[trigger] names@[k]@)) is Some,
            forall|k: int| 0 <= k < i ==> (#[trigger] out@[k]).0@ == names@[k]@,
            path_view(names@) == store.children(path_view(group.path@)),
            forall|k: int| 0 <= k < i ==> {
                let (name, c) = #[trigger] out@[k];
                &&& c.path_spec() == path_view(group.path@).push(name@)
                &&& store.node(c.path_spec()) matches Some(m) && (c is Dataset <==> m.content is Dataset)
            },
        decreases names@.len() - i,
    {
        let name = names[i].clone();
        assert(store.node(path_view(group.path@).push(names@[i as int]@)) is Some);
        let c = match DataContainer::open(store, group, name.as_str()) {
            Ok(c) => c,
            Err(e) => return Err(e),
        };
        out.push((name, c));
        i = i + 1;
    }
    proof {
        assert forall|k: int| 0 <= k < out@.len() implies (#[trigger] out@[k]).0@ == store.children(path_view(group.path@))[k] by {
            assert(path_view(names@)[k] == names@[k]@);
        }
        assert forall|name: Seq<char>| #[trigger] store.node(path_view(group.path@).push(name)) is Some
            implies exists|k: int| 0 <= k < out@.len() && out@[k].0@ == name by {
            let k = choose|k: int| 0 <= k < names@.len() && names@[k]@ == name;
            assert(out@[k].0@ == names@[k]@);
        }
    }
    Ok(out)
}

/// After a deletion with the effect `DataContainer::delete` promises, nothing is
/// left at the deleted path or below it, so the name no longer exists in its parent
/// and opening it fails with `NotFound`.
pub proof fn lemma_deleted_is_absent<B: Backend>(before: &B, after: &B, p: Seq<Seq<char>>)
    requires
        p.len() > 0,
        forall|q: Seq<Seq<char>>| #[trigger] after.node(q) == if is_prefix(p, q) {
            None
        } else {
            before.node(q)
        },
    ensures
        after.node(p) is None,
        after.node(p.drop_last().push(p.last())) is None,
        forall|q: Seq<Seq<char>>| is_prefix(p, q) ==> #[trigger] after.node(q) is None,
{
    assert(p.subrange(0, p.len() as int) =~= p);
    assert(p.drop_last().push(p.last()) =~= p);
}

/// The string `s` reads `lit`.
fn eq_str(s: &String, lit: &str) -> (r: bool)
    ensures
        r == (s@ == lit@),
{
    let l = lit.to_owned();
    *s == l
}

} // verus!
