use vstd::prelude::*;
use crate::scalar::DynScalar;
use crate::types::ScalarType;

verus! {

/// Number of elements of an array of the given shape: the product of the extents.
pub open spec fn shape_size(shape: Seq<usize>) -> nat
    decreases shape.len(),
{
    if shape.len() == 0 {
        1
    } else {
        shape_size(shape.drop_last()) * (shape.last() as nat)
    }
}

/// A multi-index lies inside a shape: one coordinate per axis, each below its extent.
pub open spec fn in_bounds(shape: Seq<usize>, idx: Seq<usize>) -> bool {
    idx.len() == shape.len() && forall|k: int| 0 <= k < idx.len() ==> idx[k] < shape[k]
}

/// Row-major position of a multi-index: the last axis varies fastest.
pub open spec fn flat_index(shape: Seq<usize>, idx: Seq<usize>) -> int
    decreases idx.len(),
{
    if idx.len() == 0 || shape.len() == 0 {
        0
    } else {
        flat_index(shape.drop_last(), idx.drop_last()) * (shape.last() as int) + idx.last() as int
    }
}

/// An in-bounds multi-index has a row-major position inside the array.
pub proof fn lemma_flat_index_bounds(shape: Seq<usize>, idx: Seq<usize>)
    requires
        in_bounds(shape, idx),
    ensures
        0 <= flat_index(shape, idx) < shape_size(shape),
    decreases idx.len(),
{
    if idx.len() > 0 {
        let s = shape.drop_last();
        let i = idx.drop_last();
        assert(in_bounds(s, i));
        lemma_flat_index_bounds(s, i);
        let f = flat_index(s, i);
        let n = shape_size(s) as int;
        let e = shape.last() as int;
        let x = idx.last() as int;
        assert(f * e + x < n * e) by (nonlinear_arith)
            requires
                0 <= f < n,
                0 <= x < e,
        ;
        assert(0 <= f * e) by (nonlinear_arith)
            requires
                0 <= f,
                0 <= e,
        ;
    }
}

/// The multi-indices of a list of points.
pub open spec fn points_view(pts: Seq<Vec<usize>>) -> Seq<Seq<usize>> {
    Seq::new(pts.len(), |i: int| pts[i]@)
}

/// The elements of a row-major array at the given multi-indices, in their order.
pub open spec fn gather(shape: Seq<usize>, data: Seq<DynScalar>, pts: Seq<Seq<usize>>) -> Seq<DynScalar> {
    Seq::new(pts.len(), |i: int| data[flat_index(shape, pts[i])])
}

/// Every multi-index of the list lies inside the shape.
pub open spec fn all_in_bounds(shape: Seq<usize>, pts: Seq<Seq<usize>>) -> bool {
    forall|i: int| 0 <= i < pts.len() ==> in_bounds(shape, #[trigger] pts[i])
}

/// A dense, row-major array of dynamically typed elements of one scalar type.
#[derive(Debug)]
pub struct DenseArray {
    pub dtype: ScalarType,
    pub shape: Vec<usize>,
    pub data: Vec<DynScalar>,
}

impl DenseArray {
    /// The element count matches the shape and every element has the array's type.
    pub open spec fn wf(&self) -> bool {
        &&& self.data@.len() == shape_size(self.shape@)
        &&& forall|i: int| 0 <= i < self.data@.len() ==> (#[trigger] self.data@[i]).scalar_type_spec() == self.dtype
    }

    /// The element at an in-bounds multi-index.
    pub open spec fn at(&self, idx: Seq<usize>) -> DynScalar {
        self.data@[flat_index(self.shape@, idx)]
    }

    /// A copy of the array.
    pub fn duplicate(&self) -> (r: DenseArray)
        ensures
            r.dtype == self.dtype,
            r.shape@ == self.shape@,
            r.data@ == self.data@,
    {
        let mut data: Vec<DynScalar> = Vec::new();
        let mut i: usize = 0;
        while i < self.data.len()
            invariant
                i <= self.data@.len(),
                data@ == self.data@.subrange(0, i as int),
            decreases self.data@.len() - i,
        {
            data.push(self.data[i].duplicate());
            i = i + 1;
            assert(data@ =~= self.data@.subrange(0, i as int));
        }
        assert(data@ =~= self.data@);
        DenseArray { dtype: self.dtype, shape: self.shape.clone(), data }
    }
}

/// The row-major position of `idx` in an array of shape `shape`, or `None` when the
/// multi-index has the wrong rank or a coordinate past its axis.
pub fn offset(shape: &Vec<usize>, idx: &Vec<usize>) -> (r: Option<usize>)
    requires
        shape_size(shape@) <= usize::MAX,
    ensures
        r is Some <==> in_bounds(shape@, idx@),
        r matches Some(o) ==> o == flat_index(shape@, idx@) && o < shape_size(shape@),
{
    if idx.len() != shape.len() {
        return None;
    }
    let n = shape.len();
    let mut k: usize = 0;
    while k < n
        invariant
            n == shape@.len() == idx@.len(),
            k <= n,
            forall|j: int| 0 <= j < k ==> idx@[j] < shape@[j],
        decreases n - k,
    {
        if idx[k] >= shape[k] {
            return None;
        }
        k = k + 1;
    }
    proof {
        lemma_flat_index_bounds(shape@, idx@);
    }
    let mut acc: usize = 0;
    let mut k: usize = 0;
    while k < n
        invariant
            n == shape@.len() == idx@.len(),
            k <= n,
            in_bounds(shape@, idx@),
            shape_size(shape@) <= usize::MAX,
            acc == flat_index(shape@.subrange(0, k as int), idx@.subrange(0, k as int)),
            acc < shape_size(shape@.subrange(0, k as int)),
        decreases n - k,
    {
        let ghost s = shape@.subrange(0, k as int + 1);
        let ghost i = idx@.subrange(0, k as int + 1);
        proof {
            assert(s.drop_last() =~= shape@.subrange(0, k as int));
            assert(i.drop_last() =~= idx@.subrange(0, k as int));
            assert(in_bounds(s, i));
            lemma_flat_index_bounds(s, i);
            lemma_prefix_size_le(shape@, k as int + 1);
        }
        acc = acc * shape[k] + idx[k];
        k = k + 1;
    }
    assert(shape@.subrange(0, n as int) =~= shape@);
    assert(idx@.subrange(0, n as int) =~= idx@);
    Some(acc)
}

/// The size of a prefix of a shape is at most the size of the whole shape when no
/// extent past the prefix is zero.
proof fn lemma_prefix_size_le(shape: Seq<usize>, k: int)
    requires
        0 <= k <= shape.len(),
        forall|j: int| k <= j < shape.len() ==> shape[j] > 0,
    ensures
        shape_size(shape.subrange(0, k)) <= shape_size(shape),
    decreases shape.len() - k,
{
    if k < shape.len() {
        lemma_prefix_size_le(shape, k + 1);
        let s = shape.subrange(0, k + 1);
        assert(s.drop_last() =~= shape.subrange(0, k));
        let a = shape_size(shape.subrange(0, k));
        let e = shape[k] as nat;
        assert(a <= a * e) by (nonlinear_arith)
            requires
                e > 0,
        ;
        assert(shape_size(s) == a * e);
    } else {
        assert(shape.subrange(0, k) =~= shape);
    }
}

} // verus!
