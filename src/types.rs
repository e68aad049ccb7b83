use vstd::prelude::*;
use vstd::string::StringExecFns;

verus! {

/// The closed set of element types a dataset or scalar can hold.
#[derive(Debug, Clone, Copy, PartialEq, Eq, Structural)]
pub enum ScalarType {
    I8,
    I16,
    I32,
    I64,
    U8,
    U16,
    U32,
    U64,
    F32,
    F64,
    Bool,
    String,
}

/// The logical type of a container, recovered from its encoding tag.
#[derive(Debug, Clone, Copy, PartialEq, Eq, Structural)]
pub enum DataType {
    Array(ScalarType),
    Categorical,
    CsrMatrix(ScalarType),
    CscMatrix(ScalarType),
    DataFrame,
    Scalar(ScalarType),
    Mapping,
}

/// Failures of the storage layer.
#[derive(Debug, Clone, Copy, PartialEq, Eq, Structural)]
pub enum DataError {
    /// A name does not resolve to any child.
    NotFound,
    /// A resolved type differs from the one a read or conversion expected.
    TypeMismatch,
    /// An encoding tag outside the vocabulary, or one that is not implemented.
    UnsupportedEncoding,
    /// A structural rule was broken: deleting the root, an out-of-range coordinate.
    StructuralPrecondition,
}

impl ScalarType {
    /// The short lowercase name of the type.
    pub open spec fn name_spec(self) -> Seq<char> {
        match self {
            ScalarType::I8 => "i8"@,
            ScalarType::I16 => "i16"@,
            ScalarType::I32 => "i32"@,
            ScalarType::I64 => "i64"@,
            ScalarType::U8 => "u8"@,
            ScalarType::U16 => "u16"@,
            ScalarType::U32 => "u32"@,
            ScalarType::U64 => "u64"@,
            ScalarType::F32 => "f32"@,
            ScalarType::F64 => "f64"@,
            ScalarType::Bool => "bool"@,
            ScalarType::String => "string"@,
        }
    }

    /// Renders the type's name, e.g. `i32` or `string`.
    pub fn to_string(&self) -> (r: String)
        ensures
            r@ == self.name_spec(),
    {
        let s = match self {
            ScalarType::I8 => "i8",
            ScalarType::I16 => "i16",
            ScalarType::I32 => "i32",
            ScalarType::I64 => "i64",
            ScalarType::U8 => "u8",
            ScalarType::U16 => "u16",
            ScalarType::U32 => "u32",
            ScalarType::U64 => "u64",
            ScalarType::F32 => "f32",
            ScalarType::F64 => "f64",
            ScalarType::Bool => "bool",
            ScalarType::String => "string",
        };
        s.to_owned()
    }
}

impl DataType {
    /// The rendered name of the logical type, e.g. `CsrMatrix(f32)`.
    pub open spec fn name_spec(self) -> Seq<char> {
        match self {
            DataType::Array(t) => "Array("@ + t.name_spec() + ")"@,
            DataType::Categorical => "Categorical"@,
            DataType::CsrMatrix(t) => "CsrMatrix("@ + t.name_spec() + ")"@,
            DataType::CscMatrix(t) => "CscMatrix("@ + t.name_spec() + ")"@,
            DataType::DataFrame => "DataFrame"@,
            DataType::Scalar(t) => "Scalar("@ + t.name_spec() + ")"@,
            DataType::Mapping => "Mapping"@,
        }
    }

    /// Renders the logical type, e.g. `Scalar(i32)`.
    pub fn to_string(&self) -> (r: String)
        ensures
            r@ == self.name_spec(),
    {
        match self {
            DataType::Array(t) => wrap_name("Array(", *t),
            DataType::Categorical => "Categorical".to_owned(),
            DataType::CsrMatrix(t) => wrap_name("CsrMatrix(", *t),
            DataType::CscMatrix(t) => wrap_name("CscMatrix(", *t),
            DataType::DataFrame => "DataFrame".to_owned(),
            DataType::Scalar(t) => wrap_name("Scalar(", *t),
            DataType::Mapping => "Mapping".to_owned(),
        }
    }
}

/// Concatenates `head`, the name of `t` and a closing parenthesis.
fn wrap_name(head: &str, t: ScalarType) -> (r: String)
    ensures
        r@ == head@ + t.name_spec() + ")"@,
{
    let mut out = head.to_owned();
    let inner = t.to_string();
    out.append(inner.as_str());
    out.append(")");
    out
}

} // verus!
