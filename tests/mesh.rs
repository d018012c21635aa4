use spline_kernel::mesh::{flatten_rows, mesh_column};

#[test]
fn column_of_mesh() {
    let mesh = vec![vec![1, 2, 3], vec![4, 5, 6]];
    assert_eq!(mesh_column(&mesh, 0), vec![1, 4]);
    assert_eq!(mesh_column(&mesh, 2), vec![3, 6]);
}

#[test]
fn flatten_mesh_rows() {
    let mesh = vec![vec![1.0f32, 2.0], vec![], vec![3.0]];
    assert_eq!(flatten_rows(&mesh), vec![1.0, 2.0, 3.0]);
    let empty: Vec<Vec<f32>> = Vec::new();
    assert_eq!(flatten_rows(&empty), Vec::<f32>::new());
}
