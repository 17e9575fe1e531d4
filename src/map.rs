use vstd::prelude::*;
use crate::fixed::{floor_div, wrap_index, FIXED_ONE};

verus! {

/// Why a set of grids or a screen size cannot be rendered.
#[derive(Debug, Clone, Copy, PartialEq, Eq, Structural)]
pub enum ConfigurationError {
    /// The map side is zero, or its cells do not fit in memory.
    MapSize,
    /// The height grid does not hold exactly `n * n` samples.
    HeightGridSize,
    /// The color grid does not hold exactly `n * n * 3` bytes.
    ColorGridSize,
    /// The screen is empty or too large.
    ScreenSize,
    /// The frame does not hold exactly four bytes for each screen pixel.
    FrameSize,
}

/// Largest accepted map side.
pub const MAX_MAP_SIDE: usize = 65536;

/// A square height grid and a matching RGB color grid, both `n` by `n`,
/// row-major, addressed with wrap-around on both axes.
pub struct Terrain {
    pub n: usize,
    pub heights: Vec<u8>,
    pub colors: Vec<u8>,
}

/// The cell index that a coordinate falls in, reduced onto the torus.
pub open spec fn wrap(v: int, n: nat) -> nat {
    (v % (n as int)) as nat
}

/// The integer part of a fixed-point coordinate.
pub open spec fn whole(v: int) -> int {
    v / (FIXED_ONE as int)
}

/// The fractional part of a fixed-point coordinate, in `[0, FIXED_ONE)`.
pub open spec fn frac(v: int) -> int {
    v % (FIXED_ONE as int)
}

impl Terrain {
    pub open spec fn wf(&self) -> bool {
        &&& 0 < self.n <= MAX_MAP_SIDE
        &&& self.heights@.len() == self.n * self.n
        &&& self.colors@.len() == self.n * self.n * 3
    }

    /// Row-major index of the cell at `(x, y)` after wrap-around.
    pub open spec fn cell(&self, x: int, y: int) -> nat {
        wrap(y, self.n as nat) * (self.n as nat) + wrap(x, self.n as nat)
    }

    /// Height stored at cell `(x, y)`, wrapped.
    pub open spec fn height_at(&self, x: int, y: int) -> int {
        self.heights@[self.cell(x, y) as int] as int
    }

    /// One channel of the color stored at cell `(x, y)`, wrapped.
    pub open spec fn channel_at(&self, x: int, y: int, c: int) -> int {
        self.colors@[3 * self.cell(x, y) + c] as int
    }

    /// Checks the grid sizes and takes the grids.
    pub fn new(n: usize, heights: Vec<u8>, colors: Vec<u8>) -> (r: Result<Terrain, ConfigurationError>)
        ensures
            (0 < n <= MAX_MAP_SIDE && heights@.len() == n * n && colors@.len() == n * n * 3) <==> r
                is Ok,
            r is Ok ==> r->Ok_0.wf() && r->Ok_0.n == n && r->Ok_0.heights@ == heights@
                && r->Ok_0.colors@ == colors@,
            (n == 0 || n > MAX_MAP_SIDE) ==> r == Err::<Terrain, ConfigurationError>(
                ConfigurationError::MapSize,
            ),
            (0 < n <= MAX_MAP_SIDE && heights@.len() != n * n) ==> r == Err::<
                Terrain,
                ConfigurationError,
            >(ConfigurationError::HeightGridSize),
            (0 < n <= MAX_MAP_SIDE && heights@.len() == n * n && colors@.len() != n * n * 3)
                ==> r == Err::<Terrain, ConfigurationError>(ConfigurationError::ColorGridSize),
    {
        if n == 0 || n > MAX_MAP_SIDE {
            return Err(ConfigurationError::MapSize);
        }
        let side = n as u64;
        assert(side * side <= 0x1_0000_0000) by (nonlinear_arith)
            requires
                side <= MAX_MAP_SIDE,
        ;
        if heights.len() as u64 != side * side {
            return Err(ConfigurationError::HeightGridSize);
        }
        if colors.len() as u64 != side * side * 3 {
            return Err(ConfigurationError::ColorGridSize);
        }
        Ok(Terrain { n, heights, colors })
    }

    /// Index of the wrapped cell `(cx, cy)`; both already reduced.
    fn offset(&self, cx: usize, cy: usize) -> (r: usize)
        requires
            self.wf(),
            cx < self.n,
            cy < self.n,
        ensures
            r == cy * self.n + cx,
            r < self.n * self.n,
    {
        let cells = self.heights.len();
        proof {
            lemma_cell_in_range(self.n as int, cx as int, cy as int);
        }
        assert(cy * self.n + cx < cells);
        cy * self.n + cx
    }

    /// Height at the wrapped cell `(x, y)` of whole coordinates.
    pub fn height_cell(&self, x: i64, y: i64) -> (r: u8)
        requires
            self.wf(),
        ensures
            r == self.height_at(x as int, y as int),
    {
        let cx = wrap_index(x, self.n);
        let cy = wrap_index(y, self.n);
        let o = self.offset(cx, cy);
        self.heights[o]
    }

    /// Color at the wrapped cell `(x, y)` of whole coordinates.
    pub fn color_cell(&self, x: i64, y: i64) -> (r: [u8; 3])
        requires
            self.wf(),
        ensures
            r@ == seq![
                self.channel_at(x as int, y as int, 0) as u8,
                self.channel_at(x as int, y as int, 1) as u8,
                self.channel_at(x as int, y as int, 2) as u8,
            ],
    {
        let cx = wrap_index(x, self.n);
        let cy = wrap_index(y, self.n);
        let o = self.offset(cx, cy);
        let bytes = self.colors.len();
        assert(3 * o + 2 < bytes) by (nonlinear_arith)
            requires
                o < self.n * self.n,
                bytes == self.n * self.n * 3,
        ;
        let r = [self.colors[3 * o], self.colors[3 * o + 1], self.colors[3 * o + 2]];
        assert(r@ =~= seq![
            self.channel_at(x as int, y as int, 0) as u8,
            self.channel_at(x as int, y as int, 1) as u8,
            self.channel_at(x as int, y as int, 2) as u8,
        ]);
        r
    }
}

pub proof fn lemma_cell_in_range(n: int, cx: int, cy: int)
    requires
        0 <= cx < n,
        0 <= cy < n,
    ensures
        0 <= cy * n + cx < n * n,
{
    assert(0 <= cy * n + cx < n * n) by (nonlinear_arith)
        requires
            0 <= cx < n,
            0 <= cy < n,
    ;
}

} // verus!
