use vstd::prelude::*;

pub mod types;
pub mod scalar;
pub mod array;
pub mod backend;
pub mod mem;
pub mod container;
pub mod data;
pub mod selection;
pub mod ops;

pub use crate::array::DenseArray;
pub use crate::backend::{Backend, NodeKind, Selection};
pub use crate::container::{iter_containers, DataContainer, Dataset, Group};
pub use crate::data::{ReadBack, ReadData, WriteData};
pub use crate::mem::MemStore;
pub use crate::ops::{ArrayOp, HasShape, ReadArrayData};
pub use crate::scalar::{BackendData, DynScalar, Float32, Float64};
pub use crate::selection::SelectInfoElem;
pub use crate::types::{DataError, DataType, ScalarType};

verus! {

} // verus!
