use vstd::prelude::*;
use crate::array::{
    flat_index, gather, in_bounds, offset, points_view, shape_size, DenseArray,
};
use crate::backend::{Backend, NodeContent, NodeView, Selection};
use crate::data::ReadData;
use crate::types::ScalarType;
use crate::container::DataContainer;
use crate::scalar::DynScalar;
use crate::selection::{
    axis_info, cart, cartesian, choices, choices_of, gather_points, info_view, lemma_cart, lemma_cart_at, pick,
    lemma_cart_in_bounds, lens, valid_selection, SelectInfoElem,
};
use crate::types::DataError;

verus! {

/// Anything that has a shape.
pub trait HasShape {
    spec fn shape_spec(&self) -> Seq<usize>;

    fn shape(&self) -> (r: Vec<usize>)
        ensures
            r@ == self.shape_spec(),
    ;
}

/// In-memory array operations: point lookup and materialising selection.
pub trait ArrayOp: HasShape + Sized {
    /// The array is well formed.
    spec fn wf_array(&self) -> bool;

    /// The element at a multi-index, or `None` out of range.
    spec fn element_at(&self, idx: Seq<usize>) -> Option<DynScalar>;

    /// `r` holds exactly the elements that the per-axis selectors `info` pick.
    spec fn is_selection(&self, info: Seq<Option<Seq<usize>>>, r: Self) -> bool;

    /// Selecting every axis in full gives an array of the same shape with the same
    /// element at every multi-index.
    proof fn lemma_full_selection(&self, info: Seq<Option<Seq<usize>>>, r: Self)
        requires
            self.wf_array(),
            info.len() == self.shape_spec().len(),
            forall|k: int| 0 <= k < info.len() ==> info[k] is None,
            self.is_selection(info, r),
        ensures
            valid_selection(self.shape_spec(), info),
            r.shape_spec() == self.shape_spec(),
            forall|idx: Seq<usize>| #[trigger] r.element_at(idx) == self.element_at(idx),
    ;

    /// Looks an element up; an out-of-range multi-index gives `None`, not a failure.
    fn get(&self, index: &Vec<usize>) -> (r: Option<DynScalar>)
        requires
            self.wf_array(),
        ensures
            r == self.element_at(index@),
    ;

    /// A new array holding the elements that `info` picks, one selector per axis.
    fn select(&self, info: &Vec<SelectInfoElem>) -> (r: Result<Self, DataError>)
        requires
            self.wf_array(),
        ensures
            valid_selection(self.shape_spec(), info_view(info@)) ==> (r matches Ok(a) && self.is_selection(info_view(info@), a)),
            !valid_selection(self.shape_spec(), info_view(info@)) ==> r == Err::<Self, DataError>(DataError::StructuralPrecondition),
    ;

    /// Selects along one axis, keeping every other axis whole.
    fn select_axis(&self, axis: usize, slice: &SelectInfoElem) -> (r: Result<Self, DataError>)
        requires
            self.wf_array(),
        ensures
            axis >= self.shape_spec().len() ==> r == Err::<Self, DataError>(DataError::StructuralPrecondition),
            axis < self.shape_spec().len() ==> ({
                let info = axis_info(slice.view(), None, axis as int, self.shape_spec().len() as int);
                &&& valid_selection(self.shape_spec(), info) ==> (r matches Ok(a) && self.is_selection(info, a))
                &&& !valid_selection(self.shape_spec(), info) ==> r == Err::<Self, DataError>(DataError::StructuralPrecondition)
            }),
    {
        let full = SelectInfoElem::full();
        let ndim = self.shape().len();
        if axis >= ndim {
            return Err(DataError::StructuralPrecondition);
        }
        let selection = slice.set_axis(axis, ndim, &full);
        self.select(&selection)
    }
}

impl HasShape for DenseArray {
    open spec fn shape_spec(&self) -> Seq<usize> {
        self.shape@
    }

    fn shape(&self) -> (r: Vec<usize>) {
        self.shape.clone()
    }
}

/// The array that selection `info` makes of one with this element type, shape and data.
pub open spec fn selection_of(shape: Seq<usize>, data: Seq<DynScalar>, info: Seq<Option<Seq<usize>>>) -> (Seq<usize>, Seq<DynScalar>) {
    let ch = choices(shape, info);
    (lens(ch), gather(shape, data, cart(ch)))
}

impl ArrayOp for DenseArray {
    open spec fn wf_array(&self) -> bool {
        self.wf()
    }

    open spec fn element_at(&self, idx: Seq<usize>) -> Option<DynScalar> {
        if in_bounds(self.shape@, idx) {
            Some(self.at(idx))
        } else {
            None
        }
    }

    open spec fn is_selection(&self, info: Seq<Option<Seq<usize>>>, r: Self) -> bool {
        &&& r.wf()
        &&& r.dtype == self.dtype
        &&& (r.shape@, r.data@) == selection_of(self.shape@, self.data@, info)
    }

    proof fn lemma_full_selection(&self, info: Seq<Option<Seq<usize>>>, r: Self) {
        crate::selection::lemma_full_selection_identity(self.shape@, self.data@, info);
    }

    fn get(&self, index: &Vec<usize>) -> (r: Option<DynScalar>) {
        assert(self.data@.len() == self.data.len());
        match offset(&self.shape, index) {
            None => None,
            Some(o) => Some(self.data[o].duplicate()),
        }
    }

    fn select(&self, info: &Vec<SelectInfoElem>) -> (r: Result<Self, DataError>) {
        let ch = match choices_of(&self.shape, info) {
            None => return Err(DataError::StructuralPrecondition),
            Some(ch) => ch,
        };
        let pts = cartesian(&ch);
        proof {
            lemma_cart_in_bounds(self.shape@, info_view(info@));
        }
        let data = gather_points(self, &pts);
        let shape = extents(&ch);
        proof {
            lemma_selected_wf(self, info_view(info@), shape@, data@);
        }
        Ok(DenseArray { dtype: self.dtype, shape, data })
    }
}

/// The length of each list.
fn extents(ch: &Vec<Vec<usize>>) -> (r: Vec<usize>)
    ensures
        r@ == lens(points_view(ch@)),
{
    let mut r: Vec<usize> = Vec::new();
    let mut k: usize = 0;
    while k < ch.len()
        invariant
            k <= ch@.len(),
            r@.len() == k,
            forall|j: int| 0 <= j < k ==> r@[j] == ch@[j]@.len(),
        decreases ch@.len() - k,
    {
        r.push(ch[k].len());
        k = k + 1;
    }
    assert(r@ =~= lens(points_view(ch@)));
    r
}

/// The array a valid selection makes is well formed, with the source's element type.
proof fn lemma_selected_wf(a: &DenseArray, info: Seq<Option<Seq<usize>>>, shape: Seq<usize>, data: Seq<DynScalar>)
    requires
        a.wf(),
        valid_selection(a.shape@, info),
        shape == lens(choices(a.shape@, info)),
        data == gather(a.shape@, a.data@, cart(choices(a.shape@, info))),
    ensures
        data.len() == shape_size(shape),
        forall|i: int| 0 <= i < data.len() ==> (#[trigger] data[i]).scalar_type_spec() == a.dtype,
{
    let ch = choices(a.shape@, info);
    assert forall|k: int| 0 <= k < ch.len() implies (#[trigger] ch[k]).len() <= usize::MAX by {
        assert(ch[k] == crate::selection::axis_choice(a.shape@[k], info[k]));
    }
    lemma_cart(ch);
    lemma_cart_in_bounds(a.shape@, info);
    assert forall|i: int| 0 <= i < data.len() implies (#[trigger] data[i]).scalar_type_spec() == a.dtype by {
        crate::array::lemma_flat_index_bounds(a.shape@, cart(ch)[i]);
    }
}

/// The element type, shape and elements of the dataset a container names, or why
/// there is none.
pub open spec fn dataset_at(c: &DataContainer, n: Option<NodeView>) -> Result<(ScalarType, Seq<usize>, Seq<DynScalar>), DataError> {
    if c is Group {
        Err(DataError::TypeMismatch)
    } else {
        match n {
            None => Err(DataError::NotFound),
            Some(n) => match n.content {
                NodeContent::Group => Err(DataError::TypeMismatch),
                NodeContent::Dataset { dtype, shape, data } => Ok((dtype, shape, data)),
            },
        }
    }
}

/// Reading an array that stays in the backend: its shape without its data, and only
/// the elements a selection picks.
pub trait ReadArrayData: ReadData {
    /// `r` holds exactly what selectors `info` pick from a dataset with this element
    /// type, shape and data.
    spec fn is_selection_of(dtype: ScalarType, shape: Seq<usize>, data: Seq<DynScalar>, info: Seq<Option<Seq<usize>>>, r: Self) -> bool;

    /// The shape of the dataset, read without loading its elements.
    fn get_shape<B: Backend>(container: &DataContainer, store: &B) -> (r: Result<Vec<usize>, DataError>)
        requires
            store.wf(),
        ensures
            match dataset_at(container, store.node(container.path_spec())) {
                Err(e) => r == Err::<Vec<usize>, DataError>(e),
                Ok((_, shape, _)) => r is Ok && r->Ok_0@ == shape,
            },
    ;

    /// Loads only the elements that `info` picks, one selector per axis.
    fn read_select<B: Backend>(container: &DataContainer, store: &B, info: &Vec<SelectInfoElem>) -> (r: Result<Self, DataError>)
        requires
            store.wf(),
        ensures
            match container.data_type_in(store) {
                Err(e) => r == Err::<Self, DataError>(e),
                Ok(t) => if !Self::accepts(t) {
                    r == Err::<Self, DataError>(DataError::TypeMismatch)
                } else {
                    match dataset_at(container, store.node(container.path_spec())) {
                        Err(e) => r == Err::<Self, DataError>(e),
                        Ok((dtype, shape, data)) => if valid_selection(shape, info_view(info@)) {
                            r matches Ok(a) && Self::is_selection_of(dtype, shape, data, info_view(info@), a)
                        } else {
                            r == Err::<Self, DataError>(DataError::StructuralPrecondition)
                        },
                    }
                },
            },
    ;

    /// Loads a selection along one axis, keeping every other axis whole; the rank
    /// comes from the stored shape.
    fn read_axis<B: Backend>(container: &DataContainer, store: &B, axis: usize, slice: &SelectInfoElem) -> (r: Result<Self, DataError>)
        requires
            store.wf(),
        ensures
            match dataset_at(container, store.node(container.path_spec())) {
                Err(e) => r == Err::<Self, DataError>(e),
                Ok((dtype, shape, data)) => if axis >= shape.len() {
                    r == Err::<Self, DataError>(DataError::StructuralPrecondition)
                } else {
                    match container.data_type_in(store) {
                        Err(e) => r == Err::<Self, DataError>(e),
                        Ok(t) => if !Self::accepts(t) {
                            r == Err::<Self, DataError>(DataError::TypeMismatch)
                        } else if valid_selection(shape, axis_info(slice.view(), None, axis as int, shape.len() as int)) {
                            r matches Ok(a) && Self::is_selection_of(
                                dtype,
                                shape,
                                data,
                                axis_info(slice.view(), None, axis as int, shape.len() as int),
                                a,
                            )
                        } else {
                            r == Err::<Self, DataError>(DataError::StructuralPrecondition)
                        },
                    }
                },
            },
    {
        let ndim = Self::get_shape(container, store)?.len();
        if axis >= ndim {
            return Err(DataError::StructuralPrecondition);
        }
        let full = SelectInfoElem::full();
        let selection = slice.set_axis(axis, ndim, &full);
        Self::read_select(container, store, &selection)
    }
}

impl ReadArrayData for DenseArray {
    open spec fn is_selection_of(dtype: ScalarType, shape: Seq<usize>, data: Seq<DynScalar>, info: Seq<Option<Seq<usize>>>, r: Self) -> bool {
        &&& r.wf()
        &&& r.dtype == dtype
        &&& (r.shape@, r.data@) == selection_of(shape, data, info)
    }

    fn get_shape<B: Backend>(container: &DataContainer, store: &B) -> (r: Result<Vec<usize>, DataError>) {
        let d = container.as_dataset()?;
        store.shape(&d.path)
    }

    fn read_select<B: Backend>(container: &DataContainer, store: &B, info: &Vec<SelectInfoElem>) -> (r: Result<Self, DataError>) {
        let t = container.encoding_type(store)?;
        if !Self::accepts_type(t) {
            return Err(DataError::TypeMismatch);
        }
        let d = container.as_dataset()?;
        let shape = store.shape(&d.path)?;
        let ch = match choices_of(&shape, info) {
            None => return Err(DataError::StructuralPrecondition),
            Some(ch) => ch,
        };
        let pts = cartesian(&ch);
        let ghost pv = points_view(pts@);
        proof {
            lemma_cart_in_bounds(shape@, info_view(info@));
            let c = choices(shape@, info_view(info@));
            assert forall|k: int| 0 <= k < c.len() implies (#[trigger] c[k]).len() <= usize::MAX by {
                assert(c[k] == crate::selection::axis_choice(shape@[k], info_view(info@)[k]));
            }
            lemma_cart(c);
        }
        let a = store.read_array(&d.path, &Selection::Points(pts))?;
        let ext = extents(&ch);
        Ok(DenseArray { dtype: a.dtype, shape: ext, data: a.data })
    }
}

/// Each element of a selection is the source element at the chosen coordinates:
/// output multi-index `m` takes, on each axis `k`, the `m[k]`-th coordinate that
/// axis keeps. On an axis kept whole that is `m[k]` itself, so a single-axis
/// selection takes slice `idx[j]` of the source as its slice `j`, in the order
/// requested, repeats included.
pub proof fn lemma_selection_elementwise(shape: Seq<usize>, data: Seq<DynScalar>, info: Seq<Option<Seq<usize>>>, m: Seq<usize>)
    requires
        data.len() == shape_size(shape),
        valid_selection(shape, info),
        in_bounds(selection_of(shape, data, info).0, m),
    ensures
        in_bounds(shape, pick(choices(shape, info), m)),
        selection_of(shape, data, info).1[flat_index(selection_of(shape, data, info).0, m)]
            == data[flat_index(shape, pick(choices(shape, info), m))],
        forall|k: int| 0 <= k < shape.len() && info[k] is None ==> #[trigger] pick(choices(shape, info), m)[k] == m[k],
        forall|k: int| 0 <= k < shape.len() && info[k] is Some ==> #[trigger] pick(choices(shape, info), m)[k]
            == info[k]->Some_0[m[k] as int],
{
    let ch = choices(shape, info);
    assert forall|k: int| 0 <= k < ch.len() implies (#[trigger] ch[k]).len() <= usize::MAX by {
        assert(ch[k] == crate::selection::axis_choice(shape[k], info[k]));
    }
    lemma_cart_at(ch, m);
    lemma_cart_in_bounds(shape, info);
    let o = flat_index(lens(ch), m);
    assert(cart(ch)[o] == pick(ch, m));
    assert(in_bounds(shape, cart(ch)[o]));
}

/// Reading one axis in full from a stored dataset selects the whole stored array:
/// the selection is valid and gives back the stored shape and elements.
pub proof fn lemma_read_axis_full<B: Backend>(store: &B, c: &DataContainer, axis: int)
    requires
        store.wf(),
    ensures
        match dataset_at(c, store.node(c.path_spec())) {
            Ok((dtype, shape, data)) => 0 <= axis < shape.len() ==> {
                &&& valid_selection(shape, axis_info(None, None, axis, shape.len() as int))
                &&& selection_of(shape, data, axis_info(None, None, axis, shape.len() as int)) == (shape, data)
            },
            Err(_) => true,
        },
{
    store.lemma_stored(c.path_spec());
    if let Ok((dtype, shape, data)) = dataset_at(c, store.node(c.path_spec())) {
        if 0 <= axis < shape.len() {
            let info = axis_info(None, None, axis, shape.len() as int);
            crate::selection::lemma_full_selection_identity(shape, data, info);
        }
    }
}

/// Selecting every axis in full, whether through a full-rank selection or through a
/// single-axis selection of an entire axis, gives back an equal array.
pub proof fn lemma_full_select_is_identity(a: DenseArray, info: Seq<Option<Seq<usize>>>, axis: int)
    requires
        a.wf(),
        info.len() == a.shape@.len(),
        forall|k: int| 0 <= k < info.len() ==> info[k] is None,
        0 <= axis < a.shape@.len(),
    ensures
        valid_selection(a.shape@, info),
        selection_of(a.shape@, a.data@, info) == (a.shape@, a.data@),
        axis_info(None, None, axis, a.shape@.len() as int) == info,
        forall|r: DenseArray| a.is_selection(info, r) ==> r.dtype == a.dtype && r.shape@ == a.shape@ && r.data@ == a.data@,
{
    crate::selection::lemma_full_selection_identity(a.shape@, a.data@, info);
    assert(axis_info(None, None, axis, a.shape@.len() as int) =~= info);
}

} // verus!
