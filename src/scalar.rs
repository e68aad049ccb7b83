use vstd::prelude::*;
use crate::types::{DataError, ScalarType};

verus! {

/// A 32-bit float carried as its IEEE-754 bit pattern.
#[derive(Debug, Clone, Copy, PartialEq, Eq, Structural)]
pub struct Float32 {
    pub bits: u32,
}

/// A 64-bit float carried as its IEEE-754 bit pattern.
#[derive(Debug, Clone, Copy, PartialEq, Eq, Structural)]
pub struct Float64 {
    pub bits: u64,
}

/// A scalar whose concrete type is chosen at run time: one variant per scalar type.
#[derive(Debug, PartialEq, Eq)]
pub enum DynScalar {
    I8(i8),
    I16(i16),
    I32(i32),
    I64(i64),
    U8(u8),
    U16(u16),
    U32(u32),
    U64(u64),
    F32(Float32),
    F64(Float64),
    Bool(bool),
    String(String),
}

impl DynScalar {
    /// The tag of the variant.
    pub open spec fn scalar_type_spec(self) -> ScalarType {
        match self {
            DynScalar::I8(_) => ScalarType::I8,
            DynScalar::I16(_) => ScalarType::I16,
            DynScalar::I32(_) => ScalarType::I32,
            DynScalar::I64(_) => ScalarType::I64,
            DynScalar::U8(_) => ScalarType::U8,
            DynScalar::U16(_) => ScalarType::U16,
            DynScalar::U32(_) => ScalarType::U32,
            DynScalar::U64(_) => ScalarType::U64,
            DynScalar::F32(_) => ScalarType::F32,
            DynScalar::F64(_) => ScalarType::F64,
            DynScalar::Bool(_) => ScalarType::Bool,
            DynScalar::String(_) => ScalarType::String,
        }
    }

    /// The tag of the variant.
    pub fn scalar_type(&self) -> (r: ScalarType)
        ensures
            r == self.scalar_type_spec(),
    {
        match self {
            DynScalar::I8(_) => ScalarType::I8,
            DynScalar::I16(_) => ScalarType::I16,
            DynScalar::I32(_) => ScalarType::I32,
            DynScalar::I64(_) => ScalarType::I64,
            DynScalar::U8(_) => ScalarType::U8,
            DynScalar::U16(_) => ScalarType::U16,
            DynScalar::U32(_) => ScalarType::U32,
            DynScalar::U64(_) => ScalarType::U64,
            DynScalar::F32(_) => ScalarType::F32,
            DynScalar::F64(_) => ScalarType::F64,
            DynScalar::Bool(_) => ScalarType::Bool,
            DynScalar::String(_) => ScalarType::String,
        }
    }

    /// A copy of the value.
    pub fn duplicate(&self) -> (r: DynScalar)
        ensures
            r == *self,
    {
        match self {
            DynScalar::I8(x) => DynScalar::I8(*x),
            DynScalar::I16(x) => DynScalar::I16(*x),
            DynScalar::I32(x) => DynScalar::I32(*x),
            DynScalar::I64(x) => DynScalar::I64(*x),
            DynScalar::U8(x) => DynScalar::U8(*x),
            DynScalar::U16(x) => DynScalar::U16(*x),
            DynScalar::U32(x) => DynScalar::U32(*x),
            DynScalar::U64(x) => DynScalar::U64(*x),
            DynScalar::F32(x) => DynScalar::F32(*x),
            DynScalar::F64(x) => DynScalar::F64(*x),
            DynScalar::Bool(x) => DynScalar::Bool(*x),
            DynScalar::String(x) => DynScalar::String(x.clone()),
        }
    }
}

/// A concrete scalar type that can be stored: its tag and the conversions to and
/// from the dynamic representation. Conversion back never coerces between types.
pub trait BackendData: Sized {
    /// The tag of the type.
    spec fn dtype_spec() -> ScalarType;

    /// The dynamic value that stands for `self`.
    spec fn as_dyn(&self) -> DynScalar;

    /// The concrete value a dynamic one converts to, or the mismatch.
    spec fn from_dyn_spec(x: DynScalar) -> Result<Self, DataError>;

    fn dtype() -> (r: ScalarType)
        ensures
            r == Self::dtype_spec(),
    ;

    fn into_dyn(&self) -> (r: DynScalar)
        ensures
            r == self.as_dyn(),
    ;

    fn from_dyn(x: DynScalar) -> (r: Result<Self, DataError>)
        ensures
            r == Self::from_dyn_spec(x),
    ;

    /// Converting to the dynamic form and back gives the value again, under its own tag.
    proof fn lemma_round_trip(v: Self)
        ensures
            Self::from_dyn_spec(v.as_dyn()) == Ok::<Self, DataError>(v),
            v.as_dyn().scalar_type_spec() == Self::dtype_spec(),
    ;

    /// A dynamic value converts exactly when its tag is the type's own, and fails
    /// with a type mismatch otherwise.
    proof fn lemma_tag_decides(x: DynScalar)
        ensures
            x.scalar_type_spec() == Self::dtype_spec() ==> Self::from_dyn_spec(x) is Ok,
            x.scalar_type_spec() != Self::dtype_spec() ==> Self::from_dyn_spec(x)
                == Err::<Self, DataError>(DataError::TypeMismatch),
    ;
}

impl BackendData for i8 {
    open spec fn dtype_spec() -> ScalarType {
        ScalarType::I8
    }

    open spec fn as_dyn(&self) -> DynScalar {
        DynScalar::I8(*self)
    }

    open spec fn from_dyn_spec(x: DynScalar) -> Result<Self, DataError> {
        match x {
            DynScalar::I8(v) => Ok(v),
            _ => Err(DataError::TypeMismatch),
        }
    }

    fn dtype() -> (r: ScalarType) {
        ScalarType::I8
    }

    fn into_dyn(&self) -> (r: DynScalar) {
        DynScalar::I8(*self)
    }

    fn from_dyn(x: DynScalar) -> (r: Result<Self, DataError>) {
        match x {
            DynScalar::I8(v) => Ok(v),
            _ => Err(DataError::TypeMismatch),
        }
    }

    proof fn lemma_round_trip(v: Self) {
    }

    proof fn lemma_tag_decides(x: DynScalar) {
    }
}

impl BackendData for i16 {
    open spec fn dtype_spec() -> ScalarType {
        ScalarType::I16
    }

    open spec fn as_dyn(&self) -> DynScalar {
        DynScalar::I16(*self)
    }

    open spec fn from_dyn_spec(x: DynScalar) -> Result<Self, DataError> {
        match x {
            DynScalar::I16(v) => Ok(v),
            _ => Err(DataError::TypeMismatch),
        }
    }

    fn dtype() -> (r: ScalarType) {
        ScalarType::I16
    }

    fn into_dyn(&self) -> (r: DynScalar) {
        DynScalar::I16(*self)
    }

    fn from_dyn(x: DynScalar) -> (r: Result<Self, DataError>) {
        match x {
            DynScalar::I16(v) => Ok(v),
            _ => Err(DataError::TypeMismatch),
        }
    }

    proof fn lemma_round_trip(v: Self) {
    }

    proof fn lemma_tag_decides(x: DynScalar) {
    }
}

impl BackendData for i32 {
    open spec fn dtype_spec() -> ScalarType {
        ScalarType::I32
    }

    open spec fn as_dyn(&self) -> DynScalar {
        DynScalar::I32(*self)
    }

    open spec fn from_dyn_spec(x: DynScalar) -> Result<Self, DataError> {
        match x {
            DynScalar::I32(v) => Ok(v),
            _ => Err(DataError::TypeMismatch),
        }
    }

    fn dtype() -> (r: ScalarType) {
        ScalarType::I32
    }

    fn into_dyn(&self) -> (r: DynScalar) {
        DynScalar::I32(*self)
    }

    fn from_dyn(x: DynScalar) -> (r: Result<Self, DataError>) {
        match x {
            DynScalar::I32(v) => Ok(v),
            _ => Err(DataError::TypeMismatch),
        }
    }

    proof fn lemma_round_trip(v: Self) {
    }

    proof fn lemma_tag_decides(x: DynScalar) {
    }
}

impl BackendData for i64 {
    open spec fn dtype_spec() -> ScalarType {
        ScalarType::I64
    }

    open spec fn as_dyn(&self) -> DynScalar {
        DynScalar::I64(*self)
    }

    open spec fn from_dyn_spec(x: DynScalar) -> Result<Self, DataError> {
        match x {
            DynScalar::I64(v) => Ok(v),
            _ => Err(DataError::TypeMismatch),
        }
    }

    fn dtype() -> (r: ScalarType) {
        ScalarType::I64
    }

    fn into_dyn(&self) -> (r: DynScalar) {
        DynScalar::I64(*self)
    }

    fn from_dyn(x: DynScalar) -> (r: Result<Self, DataError>) {
        match x {
            DynScalar::I64(v) => Ok(v),
            _ => Err(DataError::TypeMismatch),
        }
    }

    proof fn lemma_round_trip(v: Self) {
    }

    proof fn lemma_tag_decides(x: DynScalar) {
    }
}

impl BackendData for u8 {
    open spec fn dtype_spec() -> ScalarType {
        ScalarType::U8
    }

    open spec fn as_dyn(&self) -> DynScalar {
        DynScalar::U8(*self)
    }

    open spec fn from_dyn_spec(x: DynScalar) -> Result<Self, DataError> {
        match x {
            DynScalar::U8(v) => Ok(v),
            _ => Err(DataError::TypeMismatch),
        }
    }

    fn dtype() -> (r: ScalarType) {
        ScalarType::U8
    }

    fn into_dyn(&self) -> (r: DynScalar) {
        DynScalar::U8(*self)
    }

    fn from_dyn(x: DynScalar) -> (r: Result<Self, DataError>) {
        match x {
            DynScalar::U8(v) => Ok(v),
            _ => Err(DataError::TypeMismatch),
        }
    }

    proof fn lemma_round_trip(v: Self) {
    }

    proof fn lemma_tag_decides(x: DynScalar) {
    }
}

impl BackendData for u16 {
    open spec fn dtype_spec() -> ScalarType {
        ScalarType::U16
    }

    open spec fn as_dyn(&self) -> DynScalar {
        DynScalar::U16(*self)
    }

    open spec fn from_dyn_spec(x: DynScalar) -> Result<Self, DataError> {
        match x {
            DynScalar::U16(v) => Ok(v),
            _ => Err(DataError::TypeMismatch),
        }
    }

    fn dtype() -> (r: ScalarType) {
        ScalarType::U16
    }

    fn into_dyn(&self) -> (r: DynScalar) {
        DynScalar::U16(*self)
    }

    fn from_dyn(x: DynScalar) -> (r: Result<Self, DataError>) {
        match x {
            DynScalar::U16(v) => Ok(v),
            _ => Err(DataError::TypeMismatch),
        }
    }

    proof fn lemma_round_trip(v: Self) {
    }

    proof fn lemma_tag_decides(x: DynScalar) {
    }
}

impl BackendData for u32 {
    open spec fn dtype_spec() -> ScalarType {
        ScalarType::U32
    }

    open spec fn as_dyn(&self) -> DynScalar {
        DynScalar::U32(*self)
    }

    open spec fn from_dyn_spec(x: DynScalar) -> Result<Self, DataError> {
        match x {
            DynScalar::U32(v) => Ok(v),
            _ => Err(DataError::TypeMismatch),
        }
    }

    fn dtype() -> (r: ScalarType) {
        ScalarType::U32
    }

    fn into_dyn(&self) -> (r: DynScalar) {
        DynScalar::U32(*self)
    }

    fn from_dyn(x: DynScalar) -> (r: Result<Self, DataError>) {
        match x {
            DynScalar::U32(v) => Ok(v),
            _ => Err(DataError::TypeMismatch),
        }
    }

    proof fn lemma_round_trip(v: Self) {
    }

    proof fn lemma_tag_decides(x: DynScalar) {
    }
}

impl BackendData for u64 {
    open spec fn dtype_spec() -> ScalarType {
        ScalarType::U64
    }

    open spec fn as_dyn(&self) -> DynScalar {
        DynScalar::U64(*self)
    }

    open spec fn from_dyn_spec(x: DynScalar) -> Result<Self, DataError> {
        match x {
            DynScalar::U64(v) => Ok(v),
            _ => Err(DataError::TypeMismatch),
        }
    }

    fn dtype() -> (r: ScalarType) {
        ScalarType::U64
    }

    fn into_dyn(&self) -> (r: DynScalar) {
        DynScalar::U64(*self)
    }

    fn from_dyn(x: DynScalar) -> (r: Result<Self, DataError>) {
        match x {
            DynScalar::U64(v) => Ok(v),
            _ => Err(DataError::TypeMismatch),
        }
    }

    proof fn lemma_round_trip(v: Self) {
    }

    proof fn lemma_tag_decides(x: DynScalar) {
    }
}

impl BackendData for Float32 {
    open spec fn dtype_spec() -> ScalarType {
        ScalarType::F32
    }

    open spec fn as_dyn(&self) -> DynScalar {
        DynScalar::F32(*self)
    }

    open spec fn from_dyn_spec(x: DynScalar) -> Result<Self, DataError> {
        match x {
            DynScalar::F32(v) => Ok(v),
            _ => Err(DataError::TypeMismatch),
        }
    }

    fn dtype() -> (r: ScalarType) {
        ScalarType::F32
    }

    fn into_dyn(&self) -> (r: DynScalar) {
        DynScalar::F32(*self)
    }

    fn from_dyn(x: DynScalar) -> (r: Result<Self, DataError>) {
        match x {
            DynScalar::F32(v) => Ok(v),
            _ => Err(DataError::TypeMismatch),
        }
    }

    proof fn lemma_round_trip(v: Self) {
    }

    proof fn lemma_tag_decides(x: DynScalar) {
    }
}

impl BackendData for Float64 {
    open spec fn dtype_spec() -> ScalarType {
        ScalarType::F64
    }

    open spec fn as_dyn(&self) -> DynScalar {
        DynScalar::F64(*self)
    }

    open spec fn from_dyn_spec(x: DynScalar) -> Result<Self, DataError> {
        match x {
            DynScalar::F64(v) => Ok(v),
            _ => Err(DataError::TypeMismatch),
        }
    }

    fn dtype() -> (r: ScalarType) {
        ScalarType::F64
    }

    fn into_dyn(&self) -> (r: DynScalar) {
        DynScalar::F64(*self)
    }

    fn from_dyn(x: DynScalar) -> (r: Result<Self, DataError>) {
        match x {
            DynScalar::F64(v) => Ok(v),
            _ => Err(DataError::TypeMismatch),
        }
    }

    proof fn lemma_round_trip(v: Self) {
    }

    proof fn lemma_tag_decides(x: DynScalar) {
    }
}

impl BackendData for bool {
    open spec fn dtype_spec() -> ScalarType {
        ScalarType::Bool
    }

    open spec fn as_dyn(&self) -> DynScalar {
        DynScalar::Bool(*self)
    }

    open spec fn from_dyn_spec(x: DynScalar) -> Result<Self, DataError> {
        match x {
            DynScalar::Bool(v) => Ok(v),
            _ => Err(DataError::TypeMismatch),
        }
    }

    fn dtype() -> (r: ScalarType) {
        ScalarType::Bool
    }

    fn into_dyn(&self) -> (r: DynScalar) {
        DynScalar::Bool(*self)
    }

    fn from_dyn(x: DynScalar) -> (r: Result<Self, DataError>) {
        match x {
            DynScalar::Bool(v) => Ok(v),
            _ => Err(DataError::TypeMismatch),
        }
    }

    proof fn lemma_round_trip(v: Self) {
    }

    proof fn lemma_tag_decides(x: DynScalar) {
    }
}

impl BackendData for String {
    open spec fn dtype_spec() -> ScalarType {
        ScalarType::String
    }

    open spec fn as_dyn(&self) -> DynScalar {
        DynScalar::String(*self)
    }

    open spec fn from_dyn_spec(x: DynScalar) -> Result<Self, DataError> {
        match x {
            DynScalar::String(v) => Ok(v),
            _ => Err(DataError::TypeMismatch),
        }
    }

    fn dtype() -> (r: ScalarType) {
        ScalarType::String
    }

    fn into_dyn(&self) -> (r: DynScalar) {
        DynScalar::String(self.clone())
    }

    fn from_dyn(x: DynScalar) -> (r: Result<Self, DataError>) {
        match x {
            DynScalar::String(v) => Ok(v),
            _ => Err(DataError::TypeMismatch),
        }
    }

    proof fn lemma_round_trip(v: Self) {
    }

    proof fn lemma_tag_decides(x: DynScalar) {
    }
}

/// For every storable type `T` and value `v`, converting `v` to its dynamic form and
/// back yields `v`; converting a dynamic value whose tag is not `T`'s own fails with
/// a type mismatch.
pub proof fn lemma_dyn_conversion<T: BackendData>(v: T, x: DynScalar)
    ensures
        T::from_dyn_spec(v.as_dyn()) == Ok::<T, DataError>(v),
        x.scalar_type_spec() != T::dtype_spec() ==> T::from_dyn_spec(x) == Err::<T, DataError>(
            DataError::TypeMismatch,
        ),
{
    T::lemma_round_trip(v);
    T::lemma_tag_decides(x);
}

} // verus!
