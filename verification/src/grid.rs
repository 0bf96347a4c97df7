//! Rectangular fields of cells, stored row by row.

use vstd::prelude::*;

verus! {

/// The rows of a field, each as the sequence of its cells.
pub open spec fn grid<T>(v: &Vec<Vec<T>>) -> Seq<Seq<T>> {
    Seq::new(v@.len(), |i: int| v@[i]@)
}

/// `g` has `rows` rows of `cols` cells each.
pub open spec fn is_grid<T>(g: Seq<Seq<T>>, rows: int, cols: int) -> bool {
    &&& g.len() == rows
    &&& forall|i: int| 0 <= i < rows ==> (#[trigger] g[i]).len() == cols
}

/// The field of `rows` by `cols` cells that holds `value` everywhere.
pub open spec fn uniform<T>(rows: int, cols: int, value: T) -> Seq<Seq<T>> {
    Seq::new(rows as nat, |i: int| Seq::new(cols as nat, |j: int| value))
}

/// `g` with the cell in row `i`, column `j` replaced by `value`.
pub open spec fn with_cell<T>(g: Seq<Seq<T>>, i: int, j: int, value: T) -> Seq<Seq<T>> {
    g.update(i, g[i].update(j, value))
}

/// Builds the field that holds `value` in every cell.
pub fn filled<T: Copy>(rows: usize, cols: usize, value: T) -> (v: Vec<Vec<T>>)
    ensures
        grid(&v) == uniform(rows as int, cols as int, value),
        is_grid(grid(&v), rows as int, cols as int),
{
    let mut v: Vec<Vec<T>> = Vec::new();
    let mut i: usize = 0;
    while i < rows
        invariant
            i <= rows,
            v@.len() == i,
            forall|k: int| 0 <= k < i ==> (#[trigger] v@[k])@ == Seq::new(cols as nat, |j: int| value),
        decreases rows - i,
    {
        let mut row: Vec<T> = Vec::new();
        let mut j: usize = 0;
        while j < cols
            invariant
                j <= cols,
                row@.len() == j,
                forall|k: int| 0 <= k < j ==> row@[k] == value,
            decreases cols - j,
        {
            row.push(value);
            j += 1;
        }
        assert(row@ =~= Seq::new(cols as nat, |j: int| value));
        v.push(row);
        i += 1;
    }
    assert(grid(&v) =~= uniform(rows as int, cols as int, value));
    v
}

/// Replaces one cell.
pub fn set_cell<T>(v: &mut Vec<Vec<T>>, i: usize, j: usize, value: T)
    requires
        i < old(v)@.len(),
        j < old(v)@[i as int]@.len(),
    ensures
        grid(final(v)) == with_cell(grid(old(v)), i as int, j as int, value),
{
    v[i][j] = value;
    assert(grid(v) =~= with_cell(grid(old(v)), i as int, j as int, value));
}

/// Replacing a cell keeps the shape of the field.
pub proof fn lemma_with_cell_shape<T>(g: Seq<Seq<T>>, rows: int, cols: int, i: int, j: int, value: T)
    requires
        is_grid(g, rows, cols),
        0 <= i < rows,
        0 <= j < cols,
    ensures
        is_grid(with_cell(g, i, j, value), rows, cols),
        with_cell(g, i, j, value)[i][j] == value,
        forall|a: int, b: int|
            0 <= a < rows && 0 <= b < cols && (a != i || b != j) ==> with_cell(g, i, j, value)[a][b]
                == g[a][b],
{
}

} // verus!
