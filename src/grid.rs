use vstd::prelude::*;
use crate::pos::Pos;
use vstd::laws_eq::obeys_concrete_eq;

verus! {

/// The mathematical content of a grid: cells in row-major order.
pub struct GridView<T> {
    pub cells: Seq<T>,
    pub width: nat,
    pub height: nat,
}

impl<T> GridView<T> {
    /// The shape invariant: one cell per coordinate, and coordinates fit `isize`.
    pub open spec fn wf(self) -> bool {
        &&& self.width > 0
        &&& self.cells.len() == self.width * self.height
        &&& self.cells.len() <= isize::MAX
    }

    pub open spec fn in_bounds(self, x: int, y: int) -> bool {
        0 <= x < self.width && 0 <= y < self.height
    }

    /// Row-major flat index of a coordinate.
    pub open spec fn index_of(self, x: int, y: int) -> int {
        y * self.width + x
    }

    /// Column of a flat index.
    pub open spec fn x_of(self, i: int) -> int {
        i % (self.width as int)
    }

    /// Row of a flat index.
    pub open spec fn y_of(self, i: int) -> int {
        i / (self.width as int)
    }

    /// The cell at `(x, y)`, or `outer` off the grid.
    pub open spec fn get(self, x: int, y: int, outer: T) -> T {
        if self.in_bounds(x, y) {
            self.cells[self.index_of(x, y)]
        } else {
            outer
        }
    }

    /// The grid with the cell at `(x, y)` replaced; unchanged off the grid.
    pub open spec fn set(self, x: int, y: int, v: T) -> GridView<T> {
        if self.in_bounds(x, y) {
            GridView { cells: self.cells.update(self.index_of(x, y), v), ..self }
        } else {
            self
        }
    }
}

/// Row-major index of an in-bounds coordinate lies in `[0, width * height)`.
pub proof fn lemma_index_in_range(w: int, h: int, x: int, y: int)
    requires
        0 <= x < w,
        0 <= y < h,
    ensures
        0 <= y * w + x < w * h,
{
    assert(y * w + x < w * h) by (nonlinear_arith)
        requires
            0 <= x < w,
            0 <= y < h,
    ;
    assert(0 <= y * w) by (nonlinear_arith)
        requires
            0 <= x < w,
            0 <= y < h,
    ;
}

/// Reading outside the grid gives back exactly the sentinel.
pub proof fn lemma_bounds_sentinel<T>(g: GridView<T>, x: int, y: int, outer: T)
    requires
        !g.in_bounds(x, y),
    ensures
        g.get(x, y, outer) == outer,
{
}

/// Writing an in-bounds cell and reading it back gives the written value.
pub proof fn lemma_set_then_get<T>(g: GridView<T>, x: int, y: int, v: T, outer: T)
    requires
        g.wf(),
        g.in_bounds(x, y),
    ensures
        g.set(x, y, v).get(x, y, outer) == v,
{
    lemma_index_in_range(g.width as int, g.height as int, x, y);
}

/// Turning a flat index into a coordinate and back gives the index again,
/// and the coordinate lies on the grid.
pub proof fn lemma_index_bijection<T>(g: GridView<T>, i: int)
    requires
        g.wf(),
        0 <= i < g.width * g.height,
    ensures
        g.in_bounds(g.x_of(i), g.y_of(i)),
        g.index_of(g.x_of(i), g.y_of(i)) == i,
{
    let w = g.width as int;
    let h = g.height as int;
    vstd::arithmetic::div_mod::lemma_fundamental_div_mod(i, w);
    assert(0 <= i % w < w) by {
        vstd::arithmetic::div_mod::lemma_mod_bound(i, w);
    }
    let q = i / w;
    let m = i % w;
    assert(0 <= q < h) by (nonlinear_arith)
        requires
            i == w * q + m,
            0 <= m < w,
            0 <= i < w * h,
    ;
    assert(w * (i / w) == (i / w) * w) by (nonlinear_arith);
}

/// Two cells agree when they are equal or either one is still `unset`.
pub open spec fn cells_agree<T>(p: T, q: T, unset: T) -> bool {
    p == q || p == unset || q == unset
}

/// The neighbourhoods of radius `radius` around `(a_x, a_y)` in `a` and around
/// `(b_x, b_y)` in `b` agree cell by cell, reading `outer` off either grid.
pub open spec fn neighbourhoods_agree<T>(
    a: GridView<T>,
    a_x: int,
    a_y: int,
    b: GridView<T>,
    b_x: int,
    b_y: int,
    radius: int,
    unset: T,
    outer: T,
) -> bool {
    forall|dx: int, dy: int|
        -radius <= dx <= radius && -radius <= dy <= radius ==> #[trigger] cells_agree(
            a.get(a_x + dx, a_y + dy, outer),
            b.get(b_x + dx, b_y + dy, outer),
            unset,
        )
}

/// Equality of two cell values, as Verus reads `==`.
pub fn cell_eq<T: PartialEq>(p: &T, q: &T) -> (r: bool)
    requires
        obeys_concrete_eq::<T>(),
    ensures
        r == (*p == *q),
{
    proof {
        reveal(obeys_concrete_eq);
    }
    *p == *q
}

/// A fixed-size rectangular grid of cells, stored row-major.
#[derive(Debug, Clone)]
pub struct Grid<T> {
    grid: Vec<T>,
    width: usize,
    height: usize,
}

impl<T> View for Grid<T> {
    type V = GridView<T>;

    closed spec fn view(&self) -> GridView<T> {
        GridView { cells: self.grid@, width: self.width as nat, height: self.height as nat }
    }
}

impl<T: Copy> Grid<T> {
    /// A grid over `cells`, `width` cells to a row.
    pub fn new(cells: Vec<T>, width: usize) -> (r: Self)
        requires
            width > 0,
            cells.len() % width == 0,
            cells.len() <= isize::MAX,
        ensures
            r@.wf(),
            r@.cells == cells@,
            r@.width == width,
            r@.height == cells.len() / width,
    {
        let height = cells.len() / width;
        proof {
            let n = cells.len() as int;
            let w = width as int;
            vstd::arithmetic::div_mod::lemma_fundamental_div_mod(n, w);
            assert(w * (n / w) == (n / w) * w) by (nonlinear_arith);
        }
        Self { width, height, grid: cells }
    }

    /// Row-major index of an in-bounds position.
    pub fn pos_to_i(&self, pos: &Pos) -> (r: usize)
        requires
            self@.wf(),
            self@.in_bounds(pos.x as int, pos.y as int),
        ensures
            r == self@.index_of(pos.x as int, pos.y as int),
            r < self@.cells.len(),
    {
        proof {
            lemma_index_in_range(self.width as int, self.height as int, pos.x as int, pos.y as int);
        }
        (pos.y as usize) * self.width + (pos.x as usize)
    }

    /// The position of a flat index.
    pub fn i_to_pos(&self, i: usize) -> (r: Pos)
        requires
            self@.wf(),
            i < self@.cells.len(),
        ensures
            r.x == self@.x_of(i as int),
            r.y == self@.y_of(i as int),
            self@.in_bounds(r.x as int, r.y as int),
    {
        proof {
            lemma_index_bijection(self@, i as int);
        }
        Pos::new((i % self.width) as isize, (i / self.width) as isize)
    }

    /// The cell at `pos`, or `outer` when `pos` is off the grid.
    pub fn get(&self, pos: &Pos, outer: T) -> (r: T)
        requires
            self@.wf(),
        ensures
            r == self@.get(pos.x as int, pos.y as int, outer),
            !self@.in_bounds(pos.x as int, pos.y as int) ==> r == outer,
    {
        if self.is_valid(pos) {
            let i = self.pos_to_i(pos);
            self.grid[i]
        } else {
            outer
        }
    }

    /// Writes `val` at `pos`; does nothing when `pos` is off the grid.
    pub fn set(&mut self, pos: &Pos, val: T)
        requires
            old(self)@.wf(),
        ensures
            final(self)@ == old(self)@.set(pos.x as int, pos.y as int, val),
            final(self)@.wf(),
    {
        if self.is_valid(pos) {
            let i = self.pos_to_i(pos);
            self.grid.set(i, val);
        }
    }

    pub fn get_width(&self) -> (r: usize)
        ensures
            r == self@.width,
    {
        self.width
    }

    pub fn get_height(&self) -> (r: usize)
        ensures
            r == self@.height,
    {
        self.height
    }

    /// Number of cells.
    pub fn get_area(&self) -> (r: usize)
        ensures
            r == self@.cells.len(),
    {
        self.grid.len()
    }

    /// Whether `pos` lies on the grid.
    pub fn is_valid(&self, pos: &Pos) -> (r: bool)
        ensures
            r == self@.in_bounds(pos.x as int, pos.y as int),
    {
        pos.x >= 0 && pos.y >= 0 && (pos.x as usize) < self.width && (pos.y as usize) < self.height
    }

    /// Whether the neighbourhoods of radius `radius` around `a_center` in `a`
    /// and around `b_center` in `b` match, an `unset` cell on either side
    /// matching anything.
    pub fn compare(
        a: &Grid<T>,
        a_center: &Pos,
        b: &Grid<T>,
        b_center: &Pos,
        radius: isize,
        unset: T,
        outer: T,
    ) -> (r: bool) where T: PartialEq
        requires
            a@.wf(),
            b@.wf(),
            obeys_concrete_eq::<T>(),
            radius < isize::MAX,
            radius >= 0 ==> {
                &&& isize::MIN <= a_center.x - radius && a_center.x + radius <= isize::MAX
                &&& isize::MIN <= a_center.y - radius && a_center.y + radius <= isize::MAX
                &&& isize::MIN <= b_center.x - radius && b_center.x + radius <= isize::MAX
                &&& isize::MIN <= b_center.y - radius && b_center.y + radius <= isize::MAX
            },
        ensures
            r == neighbourhoods_agree(
                a@,
                a_center.x as int,
                a_center.y as int,
                b@,
                b_center.x as int,
                b_center.y as int,
                radius as int,
                unset,
                outer,
            ),
    {
        if radius < 0 {
            return true;
        }
        let ghost a_x = a_center.x as int;
        let ghost a_y = a_center.y as int;
        let ghost b_x = b_center.x as int;
        let ghost b_y = b_center.y as int;
        let mut dx: isize = -radius;
        while dx <= radius
            invariant
                a@.wf(),
                b@.wf(),
                obeys_concrete_eq::<T>(),
                0 <= radius < isize::MAX,
                a_x == a_center.x,
                a_y == a_center.y,
                b_x == b_center.x,
                b_y == b_center.y,
                isize::MIN <= a_center.x - radius && a_center.x + radius <= isize::MAX,
                isize::MIN <= a_center.y - radius && a_center.y + radius <= isize::MAX,
                isize::MIN <= b_center.x - radius && b_center.x + radius <= isize::MAX,
                isize::MIN <= b_center.y - radius && b_center.y + radius <= isize::MAX,
                -radius <= dx <= radius + 1,
                forall|ex: int, ey: int|
                    -radius <= ex < dx && -radius <= ey <= radius ==> #[trigger] cells_agree(
                        a@.get(a_x + ex, a_y + ey, outer),
                        b@.get(b_x + ex, b_y + ey, outer),
                        unset,
                    ),
            decreases radius + 1 - dx,
        {
            let mut dy: isize = -radius;
            while dy <= radius
                invariant
                    a@.wf(),
                    b@.wf(),
                    obeys_concrete_eq::<T>(),
                    0 <= radius < isize::MAX,
                    a_x == a_center.x,
                    a_y == a_center.y,
                    b_x == b_center.x,
                    b_y == b_center.y,
                a_x == a_center.x,
                a_y == a_center.y,
                b_x == b_center.x,
                b_y == b_center.y,
                    isize::MIN <= a_center.x - radius && a_center.x + radius <= isize::MAX,
                    isize::MIN <= a_center.y - radius && a_center.y + radius <= isize::MAX,
                    isize::MIN <= b_center.x - radius && b_center.x + radius <= isize::MAX,
                    isize::MIN <= b_center.y - radius && b_center.y + radius <= isize::MAX,
                    -radius <= dx <= radius,
                    -radius <= dy <= radius + 1,
                    forall|ex: int, ey: int|
                        -radius <= ex < dx && -radius <= ey <= radius ==> #[trigger] cells_agree(
                            a@.get(a_x + ex, a_y + ey, outer),
                            b@.get(b_x + ex, b_y + ey, outer),
                            unset,
                        ),
                    forall|ey: int|
                        -radius <= ey < dy ==> #[trigger] cells_agree(
                            a@.get(a_x + dx, a_y + ey, outer),
                            b@.get(b_x + dx, b_y + ey, outer),
                            unset,
                        ),
                decreases radius + 1 - dy,
            {
                let a_pos = a_center.rel(dx, dy);
                let b_pos = b_center.rel(dx, dy);
                let a_tile = a.get(&a_pos, outer);
                let b_tile = b.get(&b_pos, outer);
                if !cell_eq(&a_tile, &b_tile) && !cell_eq(&a_tile, &unset) && !cell_eq(&b_tile, &unset) {
                    assert(!cells_agree(
                        a@.get(a_x + dx, a_y + dy, outer),
                        b@.get(b_x + dx, b_y + dy, outer),
                        unset,
                    ));
                    return false;
                }
                dy = dy + 1;
            }
            dx = dx + 1;
        }
        true
    }

    pub fn get_cells(&self) -> (r: &Vec<T>)
        ensures
            r@ == self@.cells,
    {
        &self.grid
    }
}

} // verus!
