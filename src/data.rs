use vstd::prelude::*;
use crate::array::{shape_size, DenseArray};
use crate::backend::{
    attr_of, child_path, create_outcome, is_prefix, lemma_prefix_refl, lemma_without_contains, rel_path,
    strictly_below, without, is_group_at, lemma_no_orphans, path_prefix, path_view, Backend, NodeContent, NodeKind, NodeView,
    Selection,
};
use crate::container::{encoding_attr, DataContainer, Dataset, Group};
use crate::scalar::DynScalar;
use crate::types::{DataError, DataType, ScalarType};

verus! {

/// A value that can be persisted under a name inside a group.
pub trait WriteData: Sized {
    /// The value can be written as it stands.
    spec fn writable(&self) -> bool;

    /// The location that writing the value creates, encoding tag included.
    spec fn written_node(&self) -> NodeView;

    /// The location at relative path `rel` (not empty) below the written one, if
    /// writing the value creates one there.
    spec fn written_below(&self, rel: Seq<Seq<char>>) -> Option<NodeView>;

    /// Writes the value as child `name` of `group` and stamps its encoding tag.
    /// Only locations at or below the new child change.
    fn write<B: Backend>(&self, store: &mut B, group: &Group, name: &str) -> (r: Result<DataContainer, DataError>)
        requires
            old(store).wf(),
            self.writable(),
        ensures
            final(store).wf(),
            match create_outcome(
                old(store).node(path_view(group.path@)),
                old(store).node(path_view(group.path@).push(name@)),
            ) {
                Err(e) => r == Err::<DataContainer, DataError>(e),
                Ok(_) => r matches Ok(c) && c.path_spec() == path_view(group.path@).push(name@)
                    && final(store).node(c.path_spec()) == Some(self.written_node())
                    && (c is Dataset <==> self.written_node().content is Dataset),
            },
            r is Err ==> forall|q: Seq<Seq<char>>| #[trigger] final(store).node(q) == old(store).node(q),
            forall|q: Seq<Seq<char>>| !is_prefix(path_view(group.path@).push(name@), q)
                ==> #[trigger] final(store).node(q) == old(store).node(q),
            r is Ok ==> forall|q: Seq<Seq<char>>|
                strictly_below(path_view(group.path@).push(name@), q) ==> #[trigger] final(store).node(q)
                == self.written_below(rel_path(path_view(group.path@).push(name@), q)),
            r is Ok ==> forall|x: Seq<char>| #[trigger] final(store).children(path_view(group.path@)).contains(x)
                <==> (old(store).children(path_view(group.path@)).contains(x) || x == name@),
            forall|g: Seq<Seq<char>>| (r is Err || (g != path_view(group.path@) && !is_prefix(path_view(group.path@).push(name@), g)))
                ==> #[trigger] final(store).children(g) == old(store).children(g),
    ;

    /// Replaces the container's content by the value: the old location is deleted,
    /// then the value is written under the same name in the same parent group.
    fn overwrite<B: Backend>(&self, store: &mut B, container: DataContainer) -> (r: Result<DataContainer, DataError>)
        requires
            old(store).wf(),
            self.writable(),
        ensures
            final(store).wf(),
            container.path_spec().len() == 0 ==> r == Err::<DataContainer, DataError>(DataError::StructuralPrecondition),
            container.path_spec().len() > 0 ==> (r is Ok <==> (old(store).node(container.path_spec()) is Some
                && is_group_at(old(store).node(container.path_spec().drop_last())))),
            r matches Ok(c) ==> c.path_spec() == container.path_spec()
                && (c is Dataset <==> self.written_node().content is Dataset),
            r is Err ==> forall|q: Seq<Seq<char>>| #[trigger] final(store).node(q) == old(store).node(q),
            r is Ok ==> forall|x: Seq<char>| #[trigger] final(store).children(container.path_spec().drop_last()).contains(x)
                <==> old(store).children(container.path_spec().drop_last()).contains(x),
            forall|g: Seq<Seq<char>>| (r is Err || (g != container.path_spec().drop_last() && !is_prefix(container.path_spec(), g)))
                ==> #[trigger] final(store).children(g) == old(store).children(g),
            r is Ok ==> forall|q: Seq<Seq<char>>| #[trigger] final(store).node(q) == if q == container.path_spec() {
                Some(self.written_node())
            } else if is_prefix(container.path_spec(), q) {
                self.written_below(rel_path(container.path_spec(), q))
            } else {
                old(store).node(q)
            },
    {
        let p = container.path();
        let n = p.len();
        if n == 0 {
            return Err(DataError::StructuralPrecondition);
        }
        let parent = path_prefix(&p, n - 1);
        assert(path_view(parent@).push(p@[n - 1]@) =~= path_view(p@));
        assert(path_view(parent@) =~= container.path_spec().drop_last());
        match store.kind(&parent) {
            Some(NodeKind::Group) => {},
            _ => return Err(DataError::NotFound),
        }
        let name = p[n - 1].as_str();
        store.delete(&parent, name)?;
        assert(!crate::backend::is_prefix(path_view(p@), path_view(parent@)));
        assert(path_view(p@).subrange(0, path_view(p@).len() as int) =~= path_view(p@));
        assert(store.node(path_view(p@)) is None);
        assert(store.node(path_view(parent@)) == old(store).node(path_view(parent@)));
        assert(path_view(parent@) =~= path_view(p@).drop_last());
        assert(path_view(p@).last() == p@[n - 1]@);
        let ghost mid = *store;
        let ghost pv = path_view(p@);
        assert forall|q: Seq<Seq<char>>| strictly_below(pv, q) implies #[trigger] store.node(q) is None by {
            assert(is_prefix(pv, q));
        }
        let ghost after_delete = *store;
        let r = self.write(store, &Group { path: parent }, name);
        proof {
            let gp = path_view(parent@);
            old(store).lemma_children(gp);
            lemma_without_contains(old(store).children(gp), pv.last());
            assert(old(store).children(gp).contains(pv.last()));
            assert forall|x: Seq<char>| #[trigger] store.children(gp).contains(x) <==> old(store).children(gp).contains(x) by {
                assert(after_delete.children(gp).contains(x) <==> (old(store).children(gp).contains(x) && x != pv.last()));
            }
            assert forall|q: Seq<Seq<char>>| #[trigger] store.node(q) == (if q == pv {
                Some(self.written_node())
            } else if is_prefix(pv, q) {
                self.written_below(rel_path(pv, q))
            } else {
                old(store).node(q)
            }) by {
                if q != pv && is_prefix(pv, q) {
                    assert(q.len() != pv.len()) by {
                        if q.len() == pv.len() {
                            assert(q =~= q.subrange(0, pv.len() as int));
                        }
                    }
                    assert(strictly_below(pv, q));
                } else if !is_prefix(pv, q) {
                    assert(mid.node(q) == old(store).node(q));
                }
            }
        }
        r
    }
}

/// A value that can be read back from a container.
pub trait ReadData: Sized {
    /// The value kind can be read from a container of logical type `t`.
    spec fn accepts(t: DataType) -> bool;

    /// The value kind can be read from a location holding `c`.
    spec fn readable(c: NodeContent) -> bool;

    /// The value is what a location holding `c` stores.
    spec fn represents(&self, c: NodeContent) -> bool;

    /// Whether the value kind can be read from a container of logical type `t`.
    fn accepts_type(t: DataType) -> (r: bool)
        ensures
            r == Self::accepts(t),
    ;

    /// Reads a value of this kind from `container`; fails when the container's
    /// logical type is not one of this kind.
    fn read<B: Backend>(container: &DataContainer, store: &B) -> (r: Result<Self, DataError>)
        requires
            store.wf(),
        ensures
            match container.data_type_in(store) {
                Err(e) => r == Err::<Self, DataError>(e),
                Ok(t) => if !Self::accepts(t) {
                    r == Err::<Self, DataError>(DataError::TypeMismatch)
                } else {
                    match store.node(container.path_spec()) {
                        Some(n) => if Self::readable(n.content) {
                            r matches Ok(v) && v.represents(n.content)
                        } else {
                            r == Err::<Self, DataError>(DataError::TypeMismatch)
                        },
                        None => r == Err::<Self, DataError>(DataError::NotFound),
                    }
                },
            },
    ;
}

/// The encoding tag written with an array of element type `t`.
pub open spec fn array_tag(t: ScalarType) -> Seq<char> {
    if t == ScalarType::String {
        "string-array"@
    } else {
        "array"@
    }
}

/// The encoding tag written with a scalar of type `t`.
pub open spec fn scalar_tag(t: ScalarType) -> Seq<char> {
    if t == ScalarType::String {
        "string"@
    } else {
        "numeric-scalar"@
    }
}

/// Writes `arr` as dataset `name` of `group` and stamps it with `tag`.
fn write_tagged<B: Backend>(store: &mut B, group: &Group, name: &str, arr: &DenseArray, tag: &str) -> (r: Result<DataContainer, DataError>)
    requires
        old(store).wf(),
        arr.wf(),
    ensures
        final(store).wf(),
        match create_outcome(
            old(store).node(path_view(group.path@)),
            old(store).node(path_view(group.path@).push(name@)),
        ) {
            Err(e) => r == Err::<DataContainer, DataError>(e)
                && final(store).node(path_view(group.path@).push(name@)) == old(store).node(path_view(group.path@).push(name@)),
            Ok(_) => r matches Ok(c) && c is Dataset && c.path_spec() == path_view(group.path@).push(name@)
                && final(store).node(c.path_spec()) == Some(NodeView {
                    attrs: seq![(encoding_attr(), tag@)],
                    arr_attrs: Seq::empty(),
                    content: NodeContent::Dataset { dtype: arr.dtype, shape: arr.shape@, data: arr.data@ },
                }),
        },
        forall|q: Seq<Seq<char>>| q != path_view(group.path@).push(name@) ==> #[trigger] final(store).node(q) == old(store).node(q),
        r is Err ==> forall|q: Seq<Seq<char>>| #[trigger] final(store).node(q) == old(store).node(q),
        r is Ok ==> forall|x: Seq<char>| #[trigger] final(store).children(path_view(group.path@)).contains(x)
            <==> (old(store).children(path_view(group.path@)).contains(x) || x == name@),
        forall|g: Seq<Seq<char>>| (r is Err || g != path_view(group.path@)) ==> #[trigger] final(store).children(g) == old(store).children(g),
{
    proof {
        lemma_prefix_refl(path_view(group.path@).push(name@));
    }
    store.write_array(&group.path, name, arr)?;
    let path = child_path(&group.path, name);
    let w = store.write_str_attr(&path, "encoding_type", tag);
    assert(w is Ok);
    proof {
        reveal_strlit("encoding_type");
        assert(Seq::<(Seq<char>, Seq<char>)>::empty().push((encoding_attr(), tag@)) =~= seq![(encoding_attr(), tag@)]);
    }
    Ok(DataContainer::Dataset(Dataset { path }))
}

impl WriteData for DenseArray {
    open spec fn writable(&self) -> bool {
        self.wf()
    }

    open spec fn written_below(&self, rel: Seq<Seq<char>>) -> Option<NodeView> {
        None
    }

    open spec fn written_node(&self) -> NodeView {
        NodeView {
            attrs: seq![(encoding_attr(), array_tag(self.dtype))],
            arr_attrs: Seq::empty(),
            content: NodeContent::Dataset { dtype: self.dtype, shape: self.shape@, data: self.data@ },
        }
    }

    fn write<B: Backend>(&self, store: &mut B, group: &Group, name: &str) -> (r: Result<DataContainer, DataError>) {
        let tag = if self.dtype == ScalarType::String {
            "string-array"
        } else {
            "array"
        };
        proof {
            lemma_prefix_refl(path_view(group.path@).push(name@));
            let child = path_view(group.path@).push(name@);
            if old(store).node(child) is None {
                assert forall|q: Seq<Seq<char>>| strictly_below(child, q) implies #[trigger] old(store).node(q) is None by {
                    lemma_no_orphans(old(store), child, q);
                }
            }
        }
        write_tagged(store, group, name, self, tag)
    }
}

impl ReadData for DenseArray {
    open spec fn accepts(t: DataType) -> bool {
        t is Array
    }

    open spec fn readable(c: NodeContent) -> bool {
        c is Dataset
    }

    open spec fn represents(&self, c: NodeContent) -> bool {
        &&& self.wf()
        &&& c == NodeContent::Dataset { dtype: self.dtype, shape: self.shape@, data: self.data@ }
    }

    fn accepts_type(t: DataType) -> (r: bool) {
        match t {
            DataType::Array(_) => true,
            _ => false,
        }
    }

    fn read<B: Backend>(container: &DataContainer, store: &B) -> (r: Result<Self, DataError>) {
        let t = container.encoding_type(store)?;
        match t {
            DataType::Array(_) => {},
            _ => return Err(DataError::TypeMismatch),
        }
        let p = container.path();
        store.read_array(&p, &Selection::All)
    }
}

impl WriteData for DynScalar {
    open spec fn writable(&self) -> bool {
        true
    }

    open spec fn written_below(&self, rel: Seq<Seq<char>>) -> Option<NodeView> {
        None
    }

    open spec fn written_node(&self) -> NodeView {
        NodeView {
            attrs: seq![(encoding_attr(), scalar_tag(self.scalar_type_spec()))],
            arr_attrs: Seq::empty(),
            content: NodeContent::Dataset { dtype: self.scalar_type_spec(), shape: Seq::empty(), data: seq![*self] },
        }
    }

    fn write<B: Backend>(&self, store: &mut B, group: &Group, name: &str) -> (r: Result<DataContainer, DataError>) {
        let dtype = self.scalar_type();
        let arr = DenseArray { dtype, shape: Vec::new(), data: vec![self.duplicate()] };
        assert(shape_size(arr.shape@) == 1);
        assert(arr.wf());
        let tag = if dtype == ScalarType::String {
            "string"
        } else {
            "numeric-scalar"
        };
        proof {
            lemma_prefix_refl(path_view(group.path@).push(name@));
            let child = path_view(group.path@).push(name@);
            if old(store).node(child) is None {
                assert forall|q: Seq<Seq<char>>| strictly_below(child, q) implies #[trigger] old(store).node(q) is None by {
                    lemma_no_orphans(old(store), child, q);
                }
            }
        }
        let r = write_tagged(store, group, name, &arr, tag);
        assert(arr.data@ =~= seq![*self]);
        r
    }
}

impl ReadData for DynScalar {
    open spec fn accepts(t: DataType) -> bool {
        t is Scalar
    }

    open spec fn readable(c: NodeContent) -> bool {
        c matches NodeContent::Dataset { shape, .. } && shape.len() == 0
    }

    open spec fn represents(&self, c: NodeContent) -> bool {
        c matches NodeContent::Dataset { dtype, shape, data } && shape.len() == 0 && data.len() == 1 && data[0] == *self
    }

    fn accepts_type(t: DataType) -> (r: bool) {
        match t {
            DataType::Scalar(_) => true,
            _ => false,
        }
    }

    fn read<B: Backend>(container: &DataContainer, store: &B) -> (r: Result<Self, DataError>) {
        let t = container.encoding_type(store)?;
        match t {
            DataType::Scalar(_) => {},
            _ => return Err(DataError::TypeMismatch),
        }
        let p = container.path();
        let a = store.read_array(&p, &Selection::All)?;
        if a.shape.len() != 0 {
            return Err(DataError::TypeMismatch);
        }
        assert(a.data@.len() == a.data.len());
        assert(shape_size(a.shape@) == 1);
        Ok(a.data[0].duplicate())
    }
}

/// The encoding tags are pairwise distinct.
proof fn lemma_tags_distinct()
    ensures
        "numeric-scalar"@ != "string"@,
        "categorical"@ != "string"@,
        "categorical"@ != "numeric-scalar"@,
        "string-array"@ != "string"@,
        "string-array"@ != "numeric-scalar"@,
        "string-array"@ != "categorical"@,
        "array"@ != "string"@,
        "array"@ != "numeric-scalar"@,
        "array"@ != "categorical"@,
        "array"@ != "string-array"@,
        "csc_matrix"@ != "string"@,
        "csc_matrix"@ != "numeric-scalar"@,
        "csc_matrix"@ != "categorical"@,
        "csc_matrix"@ != "string-array"@,
        "csc_matrix"@ != "array"@,
        "csr_matrix"@ != "string"@,
        "csr_matrix"@ != "numeric-scalar"@,
        "csr_matrix"@ != "categorical"@,
        "csr_matrix"@ != "string-array"@,
        "csr_matrix"@ != "array"@,
        "csr_matrix"@ != "csc_matrix"@,
        "dataframe"@ != "string"@,
        "dataframe"@ != "numeric-scalar"@,
        "dataframe"@ != "categorical"@,
        "dataframe"@ != "string-array"@,
        "dataframe"@ != "array"@,
        "dataframe"@ != "csc_matrix"@,
        "dataframe"@ != "csr_matrix"@,
        "mapping"@ != "string"@,
        "mapping"@ != "numeric-scalar"@,
        "mapping"@ != "categorical"@,
        "mapping"@ != "string-array"@,
        "mapping"@ != "array"@,
        "mapping"@ != "csc_matrix"@,
        "mapping"@ != "csr_matrix"@,
        "mapping"@ != "dataframe"@,
        "dict"@ != "string"@,
        "dict"@ != "numeric-scalar"@,
        "dict"@ != "categorical"@,
        "dict"@ != "string-array"@,
        "dict"@ != "array"@,
        "dict"@ != "csc_matrix"@,
        "dict"@ != "csr_matrix"@,
        "dict"@ != "dataframe"@,
        "dict"@ != "mapping"@,
{
    reveal_strlit("string");
    reveal_strlit("numeric-scalar");
    reveal_strlit("categorical");
    reveal_strlit("string-array");
    reveal_strlit("array");
    reveal_strlit("csc_matrix");
    reveal_strlit("csr_matrix");
    reveal_strlit("dataframe");
    reveal_strlit("mapping");
    reveal_strlit("dict");
    assert("string"@.len() == 6);
    assert("numeric-scalar"@.len() == 14);
    assert("categorical"@.len() == 11);
    assert("string-array"@.len() == 12);
    assert("array"@.len() == 5);
    assert("csc_matrix"@.len() == 10);
    assert("csr_matrix"@.len() == 10);
    assert("dataframe"@.len() == 9);
    assert("mapping"@.len() == 7);
    assert("dict"@.len() == 4);
    assert("csc_matrix"@[2] != "csr_matrix"@[2]);
}

/// A location written from an array resolves to the array type of its element
/// type, and reads back as that array, under the array's own tag alone.
pub proof fn lemma_written_array_reads_back<B: Backend>(store: &B, c: DataContainer, v: DenseArray)
    requires
        v.wf(),
        c is Dataset,
        store.node(c.path_spec()) == Some(v.written_node()),
    ensures
        c.data_type_in(store) == Ok::<DataType, DataError>(DataType::Array(v.dtype)),
        DenseArray::accepts(DataType::Array(v.dtype)),
        DenseArray::readable(v.written_node().content),
        v.represents(v.written_node().content),
        attr_of(v.written_node().attrs, encoding_attr()) == Some(array_tag(v.dtype)),
{
    lemma_tags_distinct();
    let n = v.written_node();
    assert(n.attrs.drop_last() =~= Seq::<(Seq<char>, Seq<char>)>::empty());
    assert(c.tag_spec(Some(n)) == array_tag(v.dtype));
}

/// A location written from a scalar resolves to the scalar type of its tag, and
/// reads back as that scalar, under the scalar's own tag alone.
pub proof fn lemma_written_scalar_reads_back<B: Backend>(store: &B, c: DataContainer, v: DynScalar)
    requires
        c is Dataset,
        store.node(c.path_spec()) == Some(v.written_node()),
    ensures
        c.data_type_in(store) == Ok::<DataType, DataError>(DataType::Scalar(v.scalar_type_spec())),
        DynScalar::accepts(DataType::Scalar(v.scalar_type_spec())),
        DynScalar::readable(v.written_node().content),
        v.represents(v.written_node().content),
        attr_of(v.written_node().attrs, encoding_attr()) == Some(scalar_tag(v.scalar_type_spec())),
{
    lemma_tags_distinct();
    let n = v.written_node();
    assert(n.attrs.drop_last() =~= Seq::<(Seq<char>, Seq<char>)>::empty());
    assert(c.tag_spec(Some(n)) == scalar_tag(v.scalar_type_spec()));
}

/// A value kind whose written form resolves to the value's own logical type and
/// reads back as the value: what `write` or `overwrite` leaves at a path is read
/// as the new value, whatever was there before.
pub trait ReadBack: WriteData + ReadData {
    /// The logical type the value is written as.
    spec fn logical_type(&self) -> DataType;

    /// The two values are the same value: equal type and contents.
    spec fn same_value(&self, other: &Self) -> bool;

    /// A stored content stands for one value only.
    proof fn lemma_represents_unique(&self, other: &Self, c: NodeContent)
        requires
            self.represents(c),
            other.represents(c),
        ensures
            self.same_value(other),
    ;

    /// A container at a location holding what writing the value creates resolves
    /// to the value's logical type, which this kind reads, and reading it gives
    /// the value.
    proof fn lemma_written_resolves<B: Backend>(&self, store: &B, c: DataContainer)
        requires
            self.writable(),
            store.node(c.path_spec()) == Some(self.written_node()),
            c is Dataset <==> self.written_node().content is Dataset,
            forall|q: Seq<Seq<char>>| strictly_below(c.path_spec(), q)
                ==> #[trigger] store.node(q) == self.written_below(rel_path(c.path_spec(), q)),
        ensures
            c.data_type_in(store) == Ok::<DataType, DataError>(self.logical_type()),
            Self::accepts(self.logical_type()),
            Self::readable(self.written_node().content),
            self.represents(self.written_node().content),
    ;
}

/// After `v` is written or overwritten at a container's path, the container
/// resolves to `v`'s logical type, and any value a read of it returns is `v`.
pub proof fn lemma_reads_back_written<T: ReadBack, B: Backend>(v: &T, store: &B, c: DataContainer, w: &T)
    requires
        v.writable(),
        store.node(c.path_spec()) == Some(v.written_node()),
        c is Dataset <==> v.written_node().content is Dataset,
        forall|q: Seq<Seq<char>>| strictly_below(c.path_spec(), q)
            ==> #[trigger] store.node(q) == v.written_below(rel_path(c.path_spec(), q)),
        w.represents(v.written_node().content),
    ensures
        c.data_type_in(store) == Ok::<DataType, DataError>(v.logical_type()),
        T::accepts(v.logical_type()),
        T::readable(v.written_node().content),
        w.same_value(v),
{
    v.lemma_written_resolves(store, c);
    w.lemma_represents_unique(v, v.written_node().content);
}

impl ReadBack for DenseArray {
    open spec fn logical_type(&self) -> DataType {
        DataType::Array(self.dtype)
    }

    open spec fn same_value(&self, other: &Self) -> bool {
        self.dtype == other.dtype && self.shape@ == other.shape@ && self.data@ == other.data@
    }

    proof fn lemma_represents_unique(&self, other: &Self, c: NodeContent) {
    }

    proof fn lemma_written_resolves<B: Backend>(&self, store: &B, c: DataContainer) {
        lemma_written_array_reads_back(store, c, *self);
    }
}

impl ReadBack for DynScalar {
    open spec fn logical_type(&self) -> DataType {
        DataType::Scalar(self.scalar_type_spec())
    }

    open spec fn same_value(&self, other: &Self) -> bool {
        *self == *other
    }

    proof fn lemma_represents_unique(&self, other: &Self, c: NodeContent) {
    }

    proof fn lemma_written_resolves<B: Backend>(&self, store: &B, c: DataContainer) {
        lemma_written_scalar_reads_back(store, c, *self);
    }
}

/// A group that carries no encoding tag resolves to a mapping.
pub proof fn lemma_untagged_group_is_mapping<B: Backend>(store: &B, c: DataContainer)
    requires
        c is Group,
        store.node(c.path_spec()) matches Some(n) && attr_of(n.attrs, encoding_attr()) is None,
    ensures
        c.data_type_in(store) == Ok::<DataType, DataError>(DataType::Mapping),
{
    lemma_tags_distinct();
}

} // verus!
