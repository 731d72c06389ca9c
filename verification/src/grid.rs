//! The tile grid: a rectangle of cells, each empty or filled with a material.

use vstd::prelude::*;

verus! {

/// A rectangular grid of cells. A cell holds a material id; 0 means empty.
pub struct GridMap {
    cells: Vec<Vec<usize>>,
    width: u32,
    height: u32,
}

/// `rows` holds `height` rows of `width` entries each.
pub open spec fn rectangular(rows: Seq<Vec<usize>>, width: int, height: int) -> bool {
    &&& rows.len() == height
    &&& forall|r: int| 0 <= r < rows.len() ==> (#[trigger] rows[r])@.len() == width
}

impl GridMap {
    #[verifier::type_invariant]
    spec fn well_formed(&self) -> bool {
        rectangular(self.cells@, self.width as int, self.height as int)
    }

    /// The number of columns.
    pub closed spec fn columns(&self) -> int {
        self.width as int
    }

    /// The number of rows.
    pub closed spec fn rows(&self) -> int {
        self.height as int
    }

    /// The material of the cell in column `col` of row `row`.
    pub closed spec fn material(&self, col: int, row: int) -> usize {
        self.cells@[row]@[col]
    }

    /// `(col, row)` names a cell of the grid.
    pub open spec fn contains(&self, col: int, row: int) -> bool {
        0 <= col < self.columns() && 0 <= row < self.rows()
    }

    /// Every cell of the grid is empty.
    pub open spec fn is_empty(&self) -> bool {
        forall|col: int, row: int|
            self.contains(col, row) ==> #[trigger] self.material(col, row) == 0
    }

    /// The dimensions of a grid fit in 32 bits.
    pub proof fn lemma_dimensions(&self)
        ensures
            0 <= self.columns() <= u32::MAX,
            0 <= self.rows() <= u32::MAX,
    {
    }

    /// Builds a grid from its rows, top row first. The rows are accepted
    /// exactly when there are `height` of them and each has `width` entries.
    pub fn new(cells: Vec<Vec<usize>>, width: u32, height: u32) -> (r: Option<GridMap>)
        ensures
            r is Some <==> rectangular(cells@, width as int, height as int),
            r matches Some(m) ==> {
                &&& m.columns() == width
                &&& m.rows() == height
                &&& forall|col: int, row: int|
                    m.contains(col, row) ==> #[trigger] m.material(col, row) == cells@[row]@[col]
            },
    {
        if cells.len() != height as usize {
            return None;
        }
        let mut r: usize = 0;
        while r < cells.len()
            invariant
                r <= cells.len(),
                cells.len() == height,
                forall|k: int| 0 <= k < r ==> (#[trigger] cells@[k])@.len() == width,
            decreases cells.len() - r,
        {
            if cells[r].len() != width as usize {
                return None;
            }
            r += 1;
        }
        Some(GridMap { cells, width, height })
    }

    /// The number of columns.
    pub fn width(&self) -> (w: u32)
        ensures
            w == self.columns(),
    {
        self.width
    }

    /// The number of rows.
    pub fn height(&self) -> (h: u32)
        ensures
            h == self.rows(),
    {
        self.height
    }

    /// The material at `(col, row)`, or `None` outside the grid.
    pub fn cell(&self, col: u32, row: u32) -> (m: Option<usize>)
        ensures
            m == if self.contains(col as int, row as int) {
                Some(self.material(col as int, row as int))
            } else {
                None
            },
    {
        proof {
            use_type_invariant(self);
        }
        if col < self.width && row < self.height {
            Some(self.cells[row as usize][col as usize])
        } else {
            None
        }
    }
}

} // verus!
