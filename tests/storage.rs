use anndata::{
    ArrayOp, Backend, BackendData, DataContainer, DataError, DataType, DenseArray, DynScalar,
    Float32, Float64, Group, HasShape, iter_containers, MemStore, NodeKind, ReadArrayData, ReadData, ScalarType,
    SelectInfoElem, Selection, WriteData,
};

fn root() -> Group {
    Group { path: vec![] }
}

fn f64s(values: &[f64]) -> Vec<DynScalar> {
    values.iter().map(|v| DynScalar::F64(Float64 { bits: v.to_bits() })).collect()
}

fn matrix_3x4() -> DenseArray {
    let values: Vec<f64> = (0..12).map(|i| i as f64 * 1.5).collect();
    DenseArray { dtype: ScalarType::F64, shape: vec![3, 4], data: f64s(&values) }
}

fn i32_array(shape: Vec<usize>, values: Vec<i32>) -> DenseArray {
    DenseArray { dtype: ScalarType::I32, shape, data: values.into_iter().map(DynScalar::I32).collect() }
}

#[test]
fn dyn_round_trip_every_type() {
    assert_eq!(i8::from_dyn((-5i8).into_dyn()), Ok(-5i8));
    assert_eq!(i16::from_dyn(300i16.into_dyn()), Ok(300i16));
    assert_eq!(i32::from_dyn(42i32.into_dyn()), Ok(42i32));
    assert_eq!(i64::from_dyn((-7i64).into_dyn()), Ok(-7i64));
    assert_eq!(u8::from_dyn(200u8.into_dyn()), Ok(200u8));
    assert_eq!(u16::from_dyn(60000u16.into_dyn()), Ok(60000u16));
    assert_eq!(u32::from_dyn(4_000_000_000u32.into_dyn()), Ok(4_000_000_000u32));
    assert_eq!(u64::from_dyn(u64::MAX.into_dyn()), Ok(u64::MAX));
    assert_eq!(bool::from_dyn(true.into_dyn()), Ok(true));
    assert_eq!(String::from_dyn("abc".to_string().into_dyn()), Ok("abc".to_string()));
    let f = Float32 { bits: 2.5f32.to_bits() };
    assert_eq!(Float32::from_dyn(f.into_dyn()), Ok(f));
    let d = Float64 { bits: (-0.25f64).to_bits() };
    assert_eq!(Float64::from_dyn(d.into_dyn()), Ok(d));
    assert_eq!(f32::from_bits(Float32::from_dyn(f.into_dyn()).unwrap().bits), 2.5f32);
}

#[test]
fn dyn_tags_and_dtypes() {
    assert_eq!(42i32.into_dyn(), DynScalar::I32(42));
    assert_eq!(i32::dtype(), ScalarType::I32);
    assert_eq!(String::dtype(), ScalarType::String);
    assert_eq!(Float64::dtype(), ScalarType::F64);
    assert_eq!(DynScalar::U16(3).scalar_type(), ScalarType::U16);
}

#[test]
fn dyn_mismatch_fails_without_coercion() {
    assert_eq!(i32::from_dyn(DynScalar::I64(42)), Err(DataError::TypeMismatch));
    assert_eq!(i8::from_dyn(DynScalar::I16(1)), Err(DataError::TypeMismatch));
    assert_eq!(u64::from_dyn(DynScalar::I64(1)), Err(DataError::TypeMismatch));
    assert_eq!(bool::from_dyn(DynScalar::U8(1)), Err(DataError::TypeMismatch));
    assert_eq!(String::from_dyn(DynScalar::Bool(true)), Err(DataError::TypeMismatch));
    assert_eq!(Float32::from_dyn(DynScalar::F64(Float64 { bits: 0 })), Err(DataError::TypeMismatch));
}

#[test]
fn type_names() {
    assert_eq!(ScalarType::I32.to_string(), "i32");
    assert_eq!(ScalarType::String.to_string(), "string");
    assert_eq!(DataType::Scalar(ScalarType::I32).to_string(), "Scalar(i32)");
    assert_eq!(DataType::CsrMatrix(ScalarType::F32).to_string(), "CsrMatrix(f32)");
    assert_eq!(DataType::Array(ScalarType::Bool).to_string(), "Array(bool)");
    assert_eq!(DataType::Mapping.to_string(), "Mapping");
    assert_eq!(DataType::DataFrame.to_string(), "DataFrame");
}

#[test]
fn scalar_scenario_in_root_group() {
    let mut store = MemStore::new();
    store.create_group(&vec![], "root").unwrap();
    let g = Group { path: vec!["root".to_string()] };
    let c = DynScalar::I32(42).write(&mut store, &g, "x").unwrap();
    assert_eq!(c.path(), vec!["root".to_string(), "x".to_string()]);
    let x = DataContainer::open(&store, &g, "x").unwrap();
    assert!(x.as_dataset().is_ok());
    assert_eq!(x.encoding_type(&store), Ok(DataType::Scalar(ScalarType::I32)));
    assert_eq!(DynScalar::read(&x, &store), Ok(DynScalar::I32(42)));
    assert_eq!(x.read_str_attr(&store, "encoding_type"), Ok("numeric-scalar".to_string()));
}

#[test]
fn untagged_matrix_scenario() {
    let mut store = MemStore::new();
    store.write_array(&vec![], "m", &matrix_3x4()).unwrap();
    let m = DataContainer::open(&store, &root(), "m").unwrap();
    assert_eq!(DenseArray::get_shape(&m, &store), Ok(vec![3, 4]));
    let got = store
        .read_array(&vec!["m".to_string()], &Selection::Points(vec![vec![0, 0], vec![2, 3]]))
        .unwrap();
    assert_eq!(got.shape, vec![2]);
    assert_eq!(got.data, f64s(&[0.0, 16.5]));
    assert_eq!(m.encoding_type(&store), Ok(DataType::Scalar(ScalarType::F64)));
    assert_eq!(m.read_str_attr(&store, "encoding_type"), Err(DataError::NotFound));
}

#[test]
fn csr_tag_resolves_from_data_child() {
    let mut store = MemStore::new();
    store.create_group(&vec![], "x").unwrap();
    let x = vec!["x".to_string()];
    store.write_str_attr(&x, "encoding_type", "csr_matrix").unwrap();
    let data = DenseArray {
        dtype: ScalarType::F32,
        shape: vec![2],
        data: vec![DynScalar::F32(Float32 { bits: 1.0f32.to_bits() }), DynScalar::F32(Float32 { bits: 2.0f32.to_bits() })],
    };
    store.write_array(&x, "data", &data).unwrap();
    let c = DataContainer::open(&store, &root(), "x").unwrap();
    assert!(c.as_group().is_ok());
    assert_eq!(c.encoding_type(&store), Ok(DataType::CsrMatrix(ScalarType::F32)));
}

#[test]
fn open_absent_name_is_not_found() {
    let mut store = MemStore::new();
    store.create_group(&vec![], "g").unwrap();
    let g = Group { path: vec!["g".to_string()] };
    assert!(matches!(DataContainer::open(&store, &g, "nope"), Err(DataError::NotFound)));
    assert!(matches!(DataContainer::open(&store, &root(), "nope"), Err(DataError::NotFound)));
}

#[test]
fn encoding_resolution_table() {
    let mut store = MemStore::new();
    let cases: Vec<(&str, Result<DataType, DataError>)> = vec![
        ("string", Ok(DataType::Scalar(ScalarType::String))),
        ("categorical", Ok(DataType::Categorical)),
        ("string-array", Ok(DataType::Array(ScalarType::String))),
        ("dataframe", Ok(DataType::DataFrame)),
        ("mapping", Ok(DataType::Mapping)),
        ("dict", Ok(DataType::Mapping)),
        ("csc_matrix", Err(DataError::UnsupportedEncoding)),
        ("numeric-scalar", Err(DataError::TypeMismatch)),
        ("array", Err(DataError::TypeMismatch)),
        ("bogus", Err(DataError::UnsupportedEncoding)),
    ];
    for (i, (tag, want)) in cases.into_iter().enumerate() {
        let name = format!("g{}", i);
        store.create_group(&vec![], &name).unwrap();
        store.write_str_attr(&vec![name.clone()], "encoding_type", tag).unwrap();
        let c = DataContainer::open(&store, &root(), &name).unwrap();
        assert_eq!(c.encoding_type(&store), want, "tag {}", tag);
    }
    store.create_group(&vec![], "plain").unwrap();
    let plain = DataContainer::open(&store, &root(), "plain").unwrap();
    assert_eq!(plain.encoding_type(&store), Ok(DataType::Mapping));
}

#[test]
fn csr_without_data_child_is_not_found() {
    let mut store = MemStore::new();
    store.create_group(&vec![], "s").unwrap();
    store.write_str_attr(&vec!["s".to_string()], "encoding_type", "csr_matrix").unwrap();
    let c = DataContainer::open(&store, &root(), "s").unwrap();
    assert_eq!(c.encoding_type(&store), Err(DataError::NotFound));
}

#[test]
fn written_array_resolves_and_reads_back() {
    let mut store = MemStore::new();
    let arr = i32_array(vec![2, 2], vec![1, 2, 3, 4]);
    let c = arr.write(&mut store, &root(), "a").unwrap();
    assert_eq!(c.encoding_type(&store), Ok(DataType::Array(ScalarType::I32)));
    let back = DenseArray::read(&c, &store).unwrap();
    assert_eq!(back.shape, vec![2, 2]);
    assert_eq!(back.data, arr.data);
    let strs = DenseArray {
        dtype: ScalarType::String,
        shape: vec![1],
        data: vec![DynScalar::String("a".to_string())],
    };
    let s = strs.write(&mut store, &root(), "s").unwrap();
    assert_eq!(s.encoding_type(&store), Ok(DataType::Array(ScalarType::String)));
    let t = DynScalar::String("hi".to_string()).write(&mut store, &root(), "t").unwrap();
    assert_eq!(t.encoding_type(&store), Ok(DataType::Scalar(ScalarType::String)));
    assert_eq!(DynScalar::read(&t, &store), Ok(DynScalar::String("hi".to_string())));
}

#[test]
fn read_with_wrong_kind_fails() {
    let mut store = MemStore::new();
    let c = DynScalar::U8(1).write(&mut store, &root(), "s").unwrap();
    assert!(matches!(DenseArray::read(&c, &store), Err(DataError::TypeMismatch)));
    let a = i32_array(vec![2], vec![1, 2]).write(&mut store, &root(), "a").unwrap();
    assert_eq!(DynScalar::read(&a, &store), Err(DataError::TypeMismatch));
}

#[test]
fn write_into_taken_name_or_missing_parent_fails() {
    let mut store = MemStore::new();
    DynScalar::U8(1).write(&mut store, &root(), "s").unwrap();
    assert!(matches!(DynScalar::U8(2).write(&mut store, &root(), "s"), Err(DataError::StructuralPrecondition)));
    let missing = Group { path: vec!["nowhere".to_string()] };
    assert!(matches!(DynScalar::U8(2).write(&mut store, &missing, "s"), Err(DataError::NotFound)));
    assert_eq!(store.create_group(&vec!["s".to_string()], "g"), Err(DataError::NotFound));
}

#[test]
fn overwrite_replaces_data_and_tag() {
    let mut store = MemStore::new();
    store.create_group(&vec![], "g").unwrap();
    let g = Group { path: vec!["g".to_string()] };
    let c = i32_array(vec![3], vec![7, 8, 9]).write(&mut store, &g, "v").unwrap();
    c.write_str_attr(&mut store, "note", "old").unwrap();
    let c2 = DynScalar::I64(5).overwrite(&mut store, c).unwrap();
    assert_eq!(c2.path(), vec!["g".to_string(), "v".to_string()]);
    let reopened = DataContainer::open(&store, &g, "v").unwrap();
    assert_eq!(reopened.encoding_type(&store), Ok(DataType::Scalar(ScalarType::I64)));
    assert_eq!(DynScalar::read(&reopened, &store), Ok(DynScalar::I64(5)));
    assert_eq!(reopened.read_str_attr(&store, "note"), Err(DataError::NotFound));
    assert!(matches!(DenseArray::read(&reopened, &store), Err(DataError::TypeMismatch)));
}

#[test]
fn overwrite_of_root_or_missing_fails() {
    let mut store = MemStore::new();
    let root_c = DataContainer::Group(root());
    assert!(matches!(DynScalar::I64(5).overwrite(&mut store, root_c), Err(DataError::StructuralPrecondition)));
    let gone = DataContainer::Dataset(anndata::Dataset { path: vec!["gone".to_string()] });
    assert!(matches!(DynScalar::I64(5).overwrite(&mut store, gone), Err(DataError::NotFound)));
}

#[test]
fn delete_is_recursive_and_final() {
    let mut store = MemStore::new();
    store.create_group(&vec![], "g").unwrap();
    let g = Group { path: vec!["g".to_string()] };
    DynScalar::Bool(true).write(&mut store, &g, "flag").unwrap();
    store.create_group(&vec!["g".to_string()], "h").unwrap();
    let c = DataContainer::open(&store, &root(), "g").unwrap();
    DataContainer::delete(c, &mut store).unwrap();
    assert_eq!(store.kind(&vec!["g".to_string()]), None);
    assert_eq!(store.kind(&vec!["g".to_string(), "flag".to_string()]), None);
    assert_eq!(store.kind(&vec!["g".to_string(), "h".to_string()]), None);
    assert!(matches!(DataContainer::open(&store, &root(), "g"), Err(DataError::NotFound)));
    assert_eq!(store.kind(&vec![]), Some(NodeKind::Group));
}

#[test]
fn delete_keeps_siblings_and_refuses_root() {
    let mut store = MemStore::new();
    DynScalar::U32(1).write(&mut store, &root(), "a").unwrap();
    DynScalar::U32(2).write(&mut store, &root(), "ab").unwrap();
    let a = DataContainer::open(&store, &root(), "a").unwrap();
    DataContainer::delete(a, &mut store).unwrap();
    let ab = DataContainer::open(&store, &root(), "ab").unwrap();
    assert_eq!(DynScalar::read(&ab, &store), Ok(DynScalar::U32(2)));
    assert_eq!(DataContainer::delete(DataContainer::Group(root()), &mut store), Err(DataError::StructuralPrecondition));
    assert_eq!(store.delete(&vec![], "a"), Err(DataError::NotFound));
}

#[test]
fn full_selection_is_identity() {
    let m = matrix_3x4();
    let all = vec![SelectInfoElem::full(), SelectInfoElem::full()];
    let s = m.select(&all).unwrap();
    assert_eq!(s.shape, m.shape);
    assert_eq!(s.data, m.data);
    for axis in 0..2 {
        let r = m.select_axis(axis, &SelectInfoElem::Full).unwrap();
        assert_eq!(r.shape, m.shape);
        assert_eq!(r.data, m.data);
    }
}

#[test]
fn select_axis_gathers_rows_and_columns() {
    let a = i32_array(vec![2, 3], vec![1, 2, 3, 4, 5, 6]);
    let rows = a.select_axis(0, &SelectInfoElem::Index(vec![1, 0, 1])).unwrap();
    assert_eq!(rows.shape, vec![3, 3]);
    assert_eq!(rows.data, i32_array(vec![9], vec![4, 5, 6, 1, 2, 3, 4, 5, 6]).data);
    let cols = a.select_axis(1, &SelectInfoElem::Index(vec![2])).unwrap();
    assert_eq!(cols.shape, vec![2, 1]);
    assert_eq!(cols.data, vec![DynScalar::I32(3), DynScalar::I32(6)]);
    let none = a.select_axis(1, &SelectInfoElem::Index(vec![])).unwrap();
    assert_eq!(none.shape, vec![2, 0]);
    assert!(none.data.is_empty());
    assert_eq!(a.shape(), vec![2, 3]);
}

#[test]
fn select_out_of_range_fails() {
    let a = i32_array(vec![2, 3], vec![1, 2, 3, 4, 5, 6]);
    assert!(matches!(a.select_axis(1, &SelectInfoElem::Index(vec![3])), Err(DataError::StructuralPrecondition)));
    assert!(matches!(a.select(&vec![SelectInfoElem::Full]), Err(DataError::StructuralPrecondition)));
}

#[test]
fn get_returns_absence_out_of_range() {
    let a = i32_array(vec![2, 3], vec![1, 2, 3, 4, 5, 6]);
    assert_eq!(a.get(&vec![1, 2]), Some(DynScalar::I32(6)));
    assert_eq!(a.get(&vec![0, 1]), Some(DynScalar::I32(2)));
    assert_eq!(a.get(&vec![2, 0]), None);
    assert_eq!(a.get(&vec![0]), None);
    let s = i32_array(vec![], vec![9]);
    assert_eq!(s.get(&vec![]), Some(DynScalar::I32(9)));
}

#[test]
fn point_read_bounds_and_order() {
    let mut store = MemStore::new();
    store.write_array(&vec![], "m", &matrix_3x4()).unwrap();
    let path = vec!["m".to_string()];
    let out = store.read_array(&path, &Selection::Points(vec![vec![3, 0]]));
    assert!(matches!(out, Err(DataError::StructuralPrecondition)));
    let out = store.read_array(&path, &Selection::Points(vec![vec![0, 4]]));
    assert!(matches!(out, Err(DataError::StructuralPrecondition)));
    let out = store.read_array(&path, &Selection::Points(vec![vec![0]]));
    assert!(matches!(out, Err(DataError::StructuralPrecondition)));
    let got = store
        .read_array(&path, &Selection::Points(vec![vec![2, 3], vec![0, 1], vec![2, 3]]))
        .unwrap();
    assert_eq!(got.data, f64s(&[16.5, 1.5, 16.5]));
    let all = store.read_array(&path, &Selection::All).unwrap();
    assert_eq!(all.shape, vec![3, 4]);
    assert_eq!(all.data, matrix_3x4().data);
}

#[test]
fn backed_reads_select_without_full_load() {
    let mut store = MemStore::new();
    let c = i32_array(vec![2, 3], vec![1, 2, 3, 4, 5, 6]).write(&mut store, &root(), "a").unwrap();
    let col = DenseArray::read_axis(&c, &store, 1, &SelectInfoElem::Index(vec![0, 2])).unwrap();
    assert_eq!(col.shape, vec![2, 2]);
    assert_eq!(col.data, vec![DynScalar::I32(1), DynScalar::I32(3), DynScalar::I32(4), DynScalar::I32(6)]);
    let sel = vec![SelectInfoElem::Index(vec![1]), SelectInfoElem::Full];
    let row = DenseArray::read_select(&c, &store, &sel).unwrap();
    assert_eq!(row.shape, vec![1, 3]);
    assert_eq!(row.data, vec![DynScalar::I32(4), DynScalar::I32(5), DynScalar::I32(6)]);
    assert!(matches!(DenseArray::read_axis(&c, &store, 2, &SelectInfoElem::Full), Err(DataError::StructuralPrecondition)));
    assert!(matches!(
        DenseArray::read_axis(&c, &store, 0, &SelectInfoElem::Index(vec![2])),
        Err(DataError::StructuralPrecondition)
    ));
    let whole = DenseArray::read_axis(&c, &store, 0, &SelectInfoElem::Full).unwrap();
    assert_eq!(whole.data, i32_array(vec![2, 3], vec![1, 2, 3, 4, 5, 6]).data);
}

#[test]
fn attributes_last_write_wins() {
    let mut store = MemStore::new();
    store.create_group(&vec![], "g").unwrap();
    let c = DataContainer::open(&store, &root(), "g").unwrap();
    c.write_str_attr(&mut store, "k", "one").unwrap();
    c.write_str_attr(&mut store, "k", "two").unwrap();
    assert_eq!(c.read_str_attr(&store, "k"), Ok("two".to_string()));
    assert_eq!(c.read_str_attr(&store, "other"), Err(DataError::NotFound));
    assert_eq!(store.write_str_attr(&vec!["zz".to_string()], "k", "v"), Err(DataError::NotFound));
}

#[test]
fn dataset_metadata_queries() {
    let mut store = MemStore::new();
    store.write_array(&vec![], "m", &matrix_3x4()).unwrap();
    store.create_group(&vec![], "g").unwrap();
    let m = vec!["m".to_string()];
    let g = vec!["g".to_string()];
    assert_eq!(store.dtype(&m), Ok(ScalarType::F64));
    assert_eq!(store.dtype(&g), Err(DataError::TypeMismatch));
    assert_eq!(store.shape(&vec!["q".to_string()]), Err(DataError::NotFound));
    assert_eq!(store.kind(&m), Some(NodeKind::Dataset));
    let gc = DataContainer::open(&store, &root(), "g").unwrap();
    assert!(matches!(DenseArray::get_shape(&gc, &store), Err(DataError::TypeMismatch)));
}

#[test]
fn list_and_iterate_direct_children() {
    let mut store = MemStore::new();
    store.create_group(&vec![], "g").unwrap();
    let g = Group { path: vec!["g".to_string()] };
    DynScalar::I8(1).write(&mut store, &g, "a").unwrap();
    store.create_group(&vec!["g".to_string()], "h").unwrap();
    DynScalar::I8(2).write(&mut store, &Group { path: vec!["g".to_string(), "h".to_string()] }, "deep").unwrap();
    let mut names = store.list(&vec!["g".to_string()]).unwrap();
    names.sort();
    assert_eq!(names, vec!["a".to_string(), "h".to_string()]);
    assert_eq!(store.list(&vec!["g".to_string(), "a".to_string()]), Err(DataError::TypeMismatch));
    assert_eq!(store.list(&vec!["none".to_string()]), Err(DataError::NotFound));
    let items = iter_containers(&store, &g).unwrap();
    assert_eq!(items.len(), 2);
    for (name, c) in &items {
        let mut expect = vec!["g".to_string()];
        expect.push(name.clone());
        assert_eq!(c.path(), expect);
        assert_eq!(c.as_dataset().is_ok(), name == "a");
    }
    assert_eq!(store.list(&vec![]).unwrap(), vec!["g".to_string()]);
}

#[test]
fn selection_restricted_write() {
    let mut store = MemStore::new();
    store.write_array(&vec![], "a", &i32_array(vec![2, 2], vec![1, 2, 3, 4])).unwrap();
    let a = vec!["a".to_string()];
    let vals = i32_array(vec![3], vec![10, 20, 30]);
    let pts = Selection::Points(vec![vec![0, 1], vec![1, 0], vec![0, 1]]);
    store.write_selection(&a, &pts, &vals).unwrap();
    let all = store.read_array(&a, &Selection::All).unwrap();
    assert_eq!(all.data, i32_array(vec![4], vec![1, 30, 20, 4]).data);
    let whole = i32_array(vec![2, 2], vec![5, 6, 7, 8]);
    store.write_selection(&a, &Selection::All, &whole).unwrap();
    assert_eq!(store.read_array(&a, &Selection::All).unwrap().data, whole.data);
    let bad = Selection::Points(vec![vec![2, 0]]);
    assert_eq!(store.write_selection(&a, &bad, &i32_array(vec![1], vec![0])), Err(DataError::StructuralPrecondition));
    let short = Selection::Points(vec![vec![0, 0], vec![1, 1]]);
    assert_eq!(store.write_selection(&a, &short, &i32_array(vec![1], vec![0])), Err(DataError::StructuralPrecondition));
    let wrong_type = DenseArray { dtype: ScalarType::U8, shape: vec![1], data: vec![DynScalar::U8(1)] };
    let one = Selection::Points(vec![vec![0, 0]]);
    assert_eq!(store.write_selection(&a, &one, &wrong_type), Err(DataError::TypeMismatch));
    assert_eq!(store.write_selection(&a, &Selection::All, &i32_array(vec![4], vec![1, 2, 3, 4])), Err(DataError::StructuralPrecondition));
    assert_eq!(store.read_array(&a, &Selection::All).unwrap().data, whole.data);
    assert_eq!(store.write_selection(&vec![], &one, &vals), Err(DataError::TypeMismatch));
    assert_eq!(store.write_selection(&vec!["zz".to_string()], &one, &vals), Err(DataError::NotFound));
}

#[test]
fn string_array_attributes() {
    let mut store = MemStore::new();
    store.create_group(&vec![], "df").unwrap();
    let c = DataContainer::open(&store, &root(), "df").unwrap();
    let cols = vec!["a".to_string(), "b".to_string()];
    c.write_str_arr_attr(&mut store, "column-order", &cols).unwrap();
    assert_eq!(c.read_str_arr_attr(&store, "column-order"), Ok(cols));
    c.write_str_arr_attr(&mut store, "column-order", &vec![]).unwrap();
    assert_eq!(c.read_str_arr_attr(&store, "column-order"), Ok(vec![]));
    assert_eq!(c.read_str_arr_attr(&store, "missing"), Err(DataError::NotFound));
    assert_eq!(c.read_str_attr(&store, "column-order"), Err(DataError::NotFound));
    let gone = DataContainer::Group(Group { path: vec!["gone".to_string()] });
    assert_eq!(gone.write_str_arr_attr(&mut store, "x", &vec![]), Err(DataError::NotFound));
}

#[test]
fn backed_reads_check_the_logical_type() {
    let mut store = MemStore::new();
    store.write_array(&vec![], "u", &i32_array(vec![2], vec![1, 2])).unwrap();
    let u = DataContainer::open(&store, &root(), "u").unwrap();
    assert!(matches!(DenseArray::read(&u, &store), Err(DataError::TypeMismatch)));
    assert!(matches!(DenseArray::read_axis(&u, &store, 0, &SelectInfoElem::Full), Err(DataError::TypeMismatch)));
    assert!(matches!(DenseArray::read_select(&u, &store, &vec![SelectInfoElem::Full]), Err(DataError::TypeMismatch)));
    assert_eq!(DenseArray::get_shape(&u, &store), Ok(vec![2]));
    let s = DynScalar::I32(3).write(&mut store, &root(), "s").unwrap();
    assert!(matches!(DenseArray::read_axis(&s, &store, 0, &SelectInfoElem::Full), Err(DataError::StructuralPrecondition)));
    assert!(matches!(DenseArray::read_select(&s, &store, &vec![]), Err(DataError::TypeMismatch)));
}

#[test]
fn select_axis_past_rank_fails() {
    let a = i32_array(vec![2, 3], vec![1, 2, 3, 4, 5, 6]);
    assert!(matches!(a.select_axis(2, &SelectInfoElem::Full), Err(DataError::StructuralPrecondition)));
}

#[test]
fn listing_order_survives_delete_and_overwrite() {
    let mut store = MemStore::new();
    for n in ["c", "a", "b"] {
        DynScalar::U8(1).write(&mut store, &root(), n).unwrap();
    }
    assert_eq!(store.list(&vec![]).unwrap(), vec!["c".to_string(), "a".to_string(), "b".to_string()]);
    let a = DataContainer::open(&store, &root(), "a").unwrap();
    DataContainer::delete(a, &mut store).unwrap();
    assert_eq!(store.list(&vec![]).unwrap(), vec!["c".to_string(), "b".to_string()]);
    let c = DataContainer::open(&store, &root(), "c").unwrap();
    DynScalar::U8(2).overwrite(&mut store, c).unwrap();
    assert_eq!(store.list(&vec![]).unwrap(), vec!["b".to_string(), "c".to_string()]);
    let names: Vec<String> = iter_containers(&store, &root()).unwrap().into_iter().map(|(n, _)| n).collect();
    assert_eq!(names, vec!["b".to_string(), "c".to_string()]);
}

#[test]
fn overwrite_removes_old_subtree() {
    let mut store = MemStore::new();
    store.create_group(&vec![], "m").unwrap();
    let m = vec!["m".to_string()];
    store.write_array(&m, "indptr", &i32_array(vec![2], vec![0, 1])).unwrap();
    DynScalar::U8(9).write(&mut store, &root(), "keep").unwrap();
    let c = DataContainer::open(&store, &root(), "m").unwrap();
    let c2 = i32_array(vec![1], vec![5]).overwrite(&mut store, c).unwrap();
    assert!(c2.as_dataset().is_ok());
    assert_eq!(store.kind(&vec!["m".to_string(), "indptr".to_string()]), None);
    assert_eq!(store.kind(&m), Some(NodeKind::Dataset));
    let keep = DataContainer::open(&store, &root(), "keep").unwrap();
    assert_eq!(DynScalar::read(&keep, &store), Ok(DynScalar::U8(9)));
}

#[test]
fn read_axis_reports_shape_error_first() {
    let mut store = MemStore::new();
    store.create_group(&vec![], "s").unwrap();
    store.write_str_attr(&vec!["s".to_string()], "encoding_type", "csr_matrix").unwrap();
    let s = DataContainer::open(&store, &root(), "s").unwrap();
    assert_eq!(s.encoding_type(&store), Err(DataError::NotFound));
    assert!(matches!(DenseArray::get_shape(&s, &store), Err(DataError::TypeMismatch)));
    assert!(matches!(DenseArray::read_axis(&s, &store, 0, &SelectInfoElem::Full), Err(DataError::TypeMismatch)));
    store.create_group(&vec![], "b").unwrap();
    store.write_str_attr(&vec!["b".to_string()], "encoding_type", "bogus").unwrap();
    let b = DataContainer::open(&store, &root(), "b").unwrap();
    assert!(matches!(DenseArray::read_axis(&b, &store, 0, &SelectInfoElem::Full), Err(DataError::TypeMismatch)));
    let c = i32_array(vec![2], vec![1, 2]).write(&mut store, &root(), "a").unwrap();
    assert!(matches!(DenseArray::read_axis(&c, &store, 1, &SelectInfoElem::Full), Err(DataError::StructuralPrecondition)));
}
