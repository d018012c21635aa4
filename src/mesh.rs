//! Rows and columns of a surface's control mesh.
use vstd::prelude::*;

verus! {

/// Every row of `mesh` has exactly `cols` points.
pub open spec fn rectangular<T>(mesh: Seq<Vec<T>>, cols: nat) -> bool {
    forall|i: int| 0 <= i < mesh.len() ==> (#[trigger] mesh[i])@.len() == cols
}

/// Column `j` of the control mesh: the `j`-th point of every row, in row order.
pub fn mesh_column<T: Copy>(mesh: &Vec<Vec<T>>, j: usize) -> (r: Vec<T>)
    requires
        forall|i: int| 0 <= i < mesh@.len() ==> j < (#[trigger] mesh@[i])@.len(),
    ensures
        r@.len() == mesh@.len(),
        forall|i: int| 0 <= i < mesh@.len() ==> #[trigger] r@[i] == mesh@[i]@[j as int],
{
    let mut column: Vec<T> = Vec::with_capacity(mesh.len());
    let mut i: usize = 0;
    while i < mesh.len()
        invariant
            i <= mesh@.len(),
            forall|k: int| 0 <= k < mesh@.len() ==> j < (#[trigger] mesh@[k])@.len(),
            column@.len() == i,
            forall|k: int| 0 <= k < i ==> #[trigger] column@[k] == mesh@[k]@[j as int],
        decreases mesh@.len() - i,
    {
        column.push(mesh[i][j]);
        i = i + 1;
    }
    column
}

/// All points of `rows`, row after row.
pub open spec fn concat_rows<T>(rows: Seq<Vec<T>>) -> Seq<T>
    decreases rows.len(),
{
    if rows.len() == 0 {
        Seq::empty()
    } else {
        concat_rows(rows.drop_last()) + rows.last()@
    }
}

/// The points of all `rows` in one sequence, row after row.
pub fn flatten_rows<T: Copy>(rows: &Vec<Vec<T>>) -> (r: Vec<T>)
    ensures
        r@ == concat_rows(rows@),
{
    let mut out: Vec<T> = Vec::new();
    let mut i: usize = 0;
    while i < rows.len()
        invariant
            i <= rows@.len(),
            out@ == concat_rows(rows@.subrange(0, i as int)),
        decreases rows@.len() - i,
    {
        let row = &rows[i];
        let mut j: usize = 0;
        let ghost start = out@;
        while j < row.len()
            invariant
                j <= row@.len(),
                out@ == start + row@.subrange(0, j as int),
            decreases row@.len() - j,
        {
            out.push(row[j]);
            j = j + 1;
            assert(out@ =~= start + row@.subrange(0, j as int));
        }
        assert(row@.subrange(0, j as int) =~= row@);
        assert(rows@.subrange(0, i + 1).drop_last() =~= rows@.subrange(0, i as int));
        i = i + 1;
    }
    assert(rows@.subrange(0, i as int) =~= rows@);
    out
}

} // verus!
