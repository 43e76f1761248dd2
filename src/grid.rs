use vstd::prelude::*;

verus! {

/// Largest number of cells along either side of a map.
pub const MAX_DIM: usize = 256;

/// A static tile grid, stored row-major. Cell code 0 is open space, 1 a plain
/// wall, and every larger code a special wall variant.
pub struct GridMap {
    width: usize,
    height: usize,
    cells: Vec<u8>,
}

impl GridMap {
    pub closed spec fn width_spec(&self) -> int {
        self.width as int
    }

    pub closed spec fn height_spec(&self) -> int {
        self.height as int
    }

    pub closed spec fn cells_spec(&self) -> Seq<u8> {
        self.cells@
    }

    /// Dimensions in range and one code per cell.
    pub open spec fn wf(&self) -> bool {
        &&& 1 <= self.width_spec() <= MAX_DIM
        &&& 1 <= self.height_spec() <= MAX_DIM
        &&& self.cells_spec().len() == self.width_spec() * self.height_spec()
    }

    /// The code of cell `(col, row)`; meaningful inside the grid only.
    pub open spec fn cell_spec(&self, col: int, row: int) -> u8 {
        self.cells_spec()[row * self.width_spec() + col]
    }

    pub open spec fn in_grid(&self, col: int, row: int) -> bool {
        0 <= col < self.width_spec() && 0 <= row < self.height_spec()
    }

    /// The code seen at a grid-line crossing. With `horz` the crossing lies on
    /// horizontal line `row` inside column `col`, and the two cells next to it
    /// are `(col, row)` and `(col, row - 1)`; otherwise it lies on vertical
    /// line `col` inside row `row`, between `(col, row)` and `(col - 1, row)`.
    /// The larger code wins; a crossing whose cell `(col, row)` is outside the
    /// grid reads as open.
    pub open spec fn wall_at(&self, col: int, row: int, horz: bool) -> u8 {
        if self.in_grid(col, row) {
            let v1 = self.cell_spec(col, row);
            let v2 = if horz {
                if row > 0 { self.cell_spec(col, row - 1) } else { v1 }
            } else {
                if col > 0 { self.cell_spec(col - 1, row) } else { v1 }
            };
            if v1 >= v2 { v1 } else { v2 }
        } else {
            0
        }
    }

    /// Every cell of the outermost ring is a wall.
    pub open spec fn walled_border(&self) -> bool {
        &&& forall|c: int| 0 <= c < self.width_spec() ==> #[trigger] self.cell_spec(c, 0) > 0
            && self.cell_spec(c, self.height_spec() - 1) > 0
        &&& forall|r: int| 0 <= r < self.height_spec() ==> #[trigger] self.cell_spec(0, r) > 0
            && self.cell_spec(self.width_spec() - 1, r) > 0
    }

    /// Builds a map from its dimensions and row-major cell codes; `None` when a
    /// dimension is zero or above `MAX_DIM`, or the codes do not fill the grid.
    pub fn new(width: usize, height: usize, cells: Vec<u8>) -> (r: Option<GridMap>)
        ensures
            r.is_some() <==> (1 <= width <= MAX_DIM && 1 <= height <= MAX_DIM && cells@.len()
                == width * height),
            r matches Some(m) ==> m.wf() && m.width_spec() == width && m.height_spec() == height
                && m.cells_spec() == cells@,
    {
        if width < 1 || width > MAX_DIM || height < 1 || height > MAX_DIM {
            return None;
        }
        assert(width * height <= MAX_DIM * MAX_DIM) by (nonlinear_arith)
            requires
                width <= MAX_DIM,
                height <= MAX_DIM,
        ;
        if cells.len() != width * height {
            return None;
        }
        Some(GridMap { width, height, cells })
    }

    pub fn width(&self) -> (r: usize)
        ensures
            r == self.width_spec(),
    {
        self.width
    }

    pub fn height(&self) -> (r: usize)
        ensures
            r == self.height_spec(),
    {
        self.height
    }

    /// The code of cell `(col, row)`.
    pub fn cell(&self, col: usize, row: usize) -> (r: u8)
        requires
            self.wf(),
            col < self.width_spec(),
            row < self.height_spec(),
        ensures
            r == self.cell_spec(col as int, row as int),
    {
        proof {
            assert(row * self.width + col < self.width * self.height <= MAX_DIM * MAX_DIM)
                by (nonlinear_arith)
                requires
                    row < self.height,
                    col < self.width,
                    self.width <= MAX_DIM,
                    self.height <= MAX_DIM,
            ;
        }
        self.cells[row * self.width + col]
    }

    /// The code seen at a grid-line crossing (see `wall_at`).
    pub fn at_wall(&self, col: i64, row: i64, horz: bool) -> (r: u8)
        requires
            self.wf(),
        ensures
            r == self.wall_at(col as int, row as int, horz),
    {
        if col < 0 || row < 0 || col >= self.width as i64 || row >= self.height as i64 {
            return 0;
        }
        let c = col as usize;
        let w = row as usize;
        let v1 = self.cell(c, w);
        let v2 = if horz {
            if w > 0 { self.cell(c, w - 1) } else { v1 }
        } else {
            if c > 0 { self.cell(c - 1, w) } else { v1 }
        };
        if v1 >= v2 { v1 } else { v2 }
    }
}

} // verus!
