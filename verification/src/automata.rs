//! A toroidal three-dimensional grid of discrete cell states.
//!
//! Cells live in one flat array; `flat_index` says where a coordinate is kept
//! and `decode_index` is its inverse on the grid. Neighbourhood queries wrap
//! around every face of the grid.

use cgmath::Point3;
use vstd::arithmetic::div_mod::{
    lemma_add_mod_noop_right, lemma_fundamental_div_mod, lemma_fundamental_div_mod_converse,
    lemma_mod_add_multiples_vanish, lemma_mod_bound, lemma_small_mod,
};
use vstd::prelude::*;

verus! {

/// `cgmath::Point3<S>`: a record of three public components `x`, `y` and
/// `z`, each of type `S`. Only the shape of the type is declared; none of
/// its methods is given a meaning here.
#[verifier::external_type_specification]
#[verifier::reject_recursive_types(S)]
pub struct ExPoint3<S>(Point3<S>);

/// The extents of a grid along its three axes.
#[derive(Clone, Copy)]
pub struct Size {
    pub x_len: usize,
    pub y_len: usize,
    pub z_len: usize,
}

impl Size {
    /// Number of cells of a grid with these extents.
    pub open spec fn volume(self) -> int {
        self.x_len * self.y_len * self.z_len
    }

    /// Cells in one horizontal layer (one value of `y`).
    pub open spec fn layer(self) -> int {
        self.x_len * self.z_len
    }

    /// Every extent is positive and the cells fit in one allocation.
    pub open spec fn wf(self) -> bool {
        &&& self.x_len > 0
        &&& self.y_len > 0
        &&& self.z_len > 0
        &&& self.volume() <= isize::MAX
    }

    /// Whether `p` lies inside the grid on every axis.
    pub open spec fn contains(self, p: Point3<usize>) -> bool {
        p.x < self.x_len && p.y < self.y_len && p.z < self.z_len
    }

    /// Position of coordinate `(x, y, z)` in the flat cell array:
    /// `x` varies fastest, then `z`, then `y`.
    pub open spec fn flat_index(self, x: int, y: int, z: int) -> int {
        x + y * self.layer() + z * self.x_len
    }

    /// The coordinate kept at position `n` of the flat cell array.
    pub open spec fn decode_index(self, n: int) -> Point3<usize> {
        Point3 {
            x: ((n % self.layer()) % (self.x_len as int)) as usize,
            y: (n / self.layer()) as usize,
            z: ((n % self.layer()) / (self.x_len as int)) as usize,
        }
    }

    /// The coordinate `(x, y, z)` folded onto the torus, axis by axis.
    pub open spec fn wrap(self, x: int, y: int, z: int) -> Point3<usize> {
        Point3 {
            x: wrap_axis(x, self.x_len as int) as usize,
            y: wrap_axis(y, self.y_len as int) as usize,
            z: wrap_axis(z, self.z_len as int) as usize,
        }
    }
}

/// True modulo of `c` by a positive extent `e`: the representative in `0..e`.
pub open spec fn wrap_axis(c: int, e: int) -> int {
    c % e
}

/// The three extents in axis order `[x, y, z]` become a `Size`.
impl From<[usize; 3]> for Size {
    fn from(item: [usize; 3]) -> (s: Self) {
        Self { x_len: item[0], y_len: item[1], z_len: item[2] }
    }
}

impl vstd::std_specs::convert::FromSpecImpl<[usize; 3]> for Size {
    open spec fn obeys_from_spec() -> bool {
        true
    }

    open spec fn from_spec(item: [usize; 3]) -> Self {
        Size { x_len: item[0], y_len: item[1], z_len: item[2] }
    }
}

/// A grid of cell states over a fixed extent.
pub struct Automata {
    pub(crate) cells: Vec<usize>,
    pub(crate) size: Size,
}

impl Automata {
    /// The cell states in storage order.
    pub closed spec fn states(&self) -> Seq<usize> {
        self.cells@
    }

    /// The extents the grid was made with.
    pub closed spec fn extent(&self) -> Size {
        self.size
    }

    /// The extents are valid and there is one state per cell.
    pub open spec fn wf(&self) -> bool {
        &&& self.extent().wf()
        &&& self.states().len() == self.extent().volume()
    }

    /// The state read at `p`: the stored one where the flat index of `p`
    /// falls inside the array, and 0 elsewhere.
    pub open spec fn state_at(&self, p: Point3<usize>) -> usize {
        let n = self.extent().flat_index(p.x as int, p.y as int, p.z as int);
        if n < self.states().len() {
            self.states()[n]
        } else {
            0
        }
    }

    /// A grid of the given extents with every cell in state 0.
    pub fn new(size: Size) -> (a: Self)
        requires
            size.wf(),
        ensures
            a.wf(),
            a.extent() == size,
            a.states() =~= Seq::new(size.volume() as nat, |i: int| 0usize),
    {
        proof {
            lemma_volume_bounds(size);
        }
        let n: usize = size.x_len * size.y_len * size.z_len;
        let cells = vec![0usize; n];
        Self { cells, size }
    }

    /// The extents of the grid.
    pub fn size(&self) -> (s: Size)
        ensures
            s == self.extent(),
    {
        self.size
    }

    /// The flat index of `p`, or `None` where it does not fit in a `usize`.
    fn cell_index(&self, p: Point3<usize>) -> (r: Option<usize>)
        requires
            self.wf(),
        ensures
            match r {
                Some(n) => n == self.extent().flat_index(p.x as int, p.y as int, p.z as int),
                None => self.extent().flat_index(p.x as int, p.y as int, p.z as int)
                    >= self.states().len(),
            },
    {
        proof {
            lemma_volume_bounds(self.size);
        }
        let layer: usize = self.size.x_len * self.size.z_len;
        let y_part = match p.y.checked_mul(layer) {
            Some(v) => v,
            None => {
                return None;
            },
        };
        let z_part = match p.z.checked_mul(self.size.x_len) {
            Some(v) => v,
            None => {
                return None;
            },
        };
        let xy = match p.x.checked_add(y_part) {
            Some(v) => v,
            None => {
                return None;
            },
        };
        xy.checked_add(z_part)
    }

    /// Reads the state at `p`; a coordinate whose flat index falls outside
    /// the array reads as 0.
    pub fn get(&self, p: Point3<usize>) -> (s: usize)
        requires
            self.wf(),
        ensures
            s == self.state_at(p),
    {
        match self.cell_index(p) {
            Some(n) => {
                if n < self.cells.len() {
                    self.cells[n]
                } else {
                    0
                }
            },
            None => 0,
        }
    }

    /// Writes `state` at `p`, whose flat index must fall inside the array.
    pub fn set(&mut self, p: Point3<usize>, state: usize)
        requires
            old(self).wf(),
            old(self).extent().flat_index(p.x as int, p.y as int, p.z as int) < old(self).states().len(),
        ensures
            final(self).wf(),
            final(self).extent() == old(self).extent(),
            final(self).states() == old(self).states().update(
                old(self).extent().flat_index(p.x as int, p.y as int, p.z as int),
                state,
            ),
    {
        match self.cell_index(p) {
            Some(n) => {
                self.cells.set(n, state);
            },
            None => {},
        }
    }
}

/// With valid extents, no partial product of the extents exceeds the volume.
pub proof fn lemma_volume_bounds(size: Size)
    requires
        size.wf(),
    ensures
        0 < size.layer() <= size.volume(),
        size.x_len * size.y_len <= size.volume(),
        size.x_len <= size.layer(),
        size.z_len <= size.layer(),
        size.y_len <= size.volume(),
        size.volume() == size.y_len * size.layer(),
{
    let x = size.x_len as int;
    let y = size.y_len as int;
    let z = size.z_len as int;
    assert(x * y * z == y * (x * z)) by (nonlinear_arith);
    assert(0 < x * z && x <= x * z && z <= x * z) by (nonlinear_arith)
        requires
            x > 0,
            z > 0,
    ;
    assert(x * z <= y * (x * z) && y <= y * (x * z)) by (nonlinear_arith)
        requires
            y > 0,
            x * z > 0,
    ;
    assert(x * y <= x * y * z) by (nonlinear_arith)
        requires
            x > 0,
            y > 0,
            z > 0,
    ;
}

/// Folds one signed component onto `0..e`.
fn wrap_component(c: isize, e: usize) -> (r: usize)
    requires
        0 < e <= isize::MAX,
    ensures
        r == wrap_axis(c as int, e as int),
        r < e,
{
    let d: isize = e as isize;
    let mut x: isize = c % d;
    proof {
        lemma_signed_remainder(c as int, d as int);
    }
    if x < 0 {
        x += d;
    }
    x as usize
}

/// The truncating remainder of a negative `c`, corrected by one extent where
/// it is not zero, is the true modulo of `c`.
proof fn lemma_signed_remainder(c: int, d: int)
    requires
        d > 0,
    ensures
        c < 0 && (-c) % d == 0 ==> c % d == 0,
        c < 0 && (-c) % d != 0 ==> c % d == d - (-c) % d,
        0 <= c % d < d,
{
    lemma_mod_bound(c, d);
    if c < 0 {
        let m = (-c) % d;
        let q = (-c) / d;
        lemma_fundamental_div_mod(-c, d);
        lemma_mod_bound(-c, d);
        if m == 0 {
            assert(c == (-q) * d + 0) by (nonlinear_arith)
                requires
                    -c == d * q + m,
                    m == 0,
            ;
            lemma_fundamental_div_mod_converse(c, d, -q, 0);
        } else {
            assert(c == (-q - 1) * d + (d - m)) by (nonlinear_arith)
                requires
                    -c == d * q + m,
            ;
            lemma_fundamental_div_mod_converse(c, d, -q - 1, d - m);
        }
    }
}

/// Offset of the `k`-th Moore neighbour, for `k` in `0..26`: every triple over
/// `{-1, 0, 1}` but the centre, with `x` outermost and `z` innermost.
pub open spec fn moore_offset(k: int) -> (int, int, int) {
    let n = if k < 13 {
        k
    } else {
        k + 1
    };
    (n / 9 - 1, (n / 3) % 3 - 1, n % 3 - 1)
}

/// Offset of the `k`-th von Neumann neighbour, for `k` in `0..6`: one unit
/// down and up the `x` axis, then the `y` axis, then the `z` axis.
pub open spec fn von_neumann_offset(k: int) -> (int, int, int) {
    if k == 0 {
        (-1, 0, 0)
    } else if k == 1 {
        (1, 0, 0)
    } else if k == 2 {
        (0, -1, 0)
    } else if k == 3 {
        (0, 1, 0)
    } else if k == 4 {
        (0, 0, -1)
    } else {
        (0, 0, 1)
    }
}

impl Size {
    /// The coordinate at offset `d` from `p`, folded onto the torus.
    pub open spec fn shifted(self, p: Point3<usize>, d: (int, int, int)) -> Point3<usize> {
        self.wrap(p.x + d.0, p.y + d.1, p.z + d.2)
    }

    /// Whether a unit step along any axis leaves every in-grid cell.
    pub open spec fn steps_leave_cell(self) -> bool {
        self.x_len >= 2 && self.y_len >= 2 && self.z_len >= 2
    }
}

impl Automata {
    /// Folds a signed coordinate onto the grid, axis by axis.
    pub fn wrap_coord(&self, coord: Point3<isize>) -> (p: Point3<usize>)
        requires
            self.wf(),
        ensures
            p == self.extent().wrap(coord.x as int, coord.y as int, coord.z as int),
            self.extent().contains(p),
    {
        proof {
            lemma_volume_bounds(self.size);
        }
        Point3 {
            x: wrap_component(coord.x, self.size.x_len),
            y: wrap_component(coord.y, self.size.y_len),
            z: wrap_component(coord.z, self.size.z_len),
        }
    }

    /// The cell at offset `(dx, dy, dz)` from `index`, each offset in `-1..=1`.
    fn neighbor(&self, index: Point3<usize>, dx: isize, dy: isize, dz: isize) -> (p: Point3<usize>)
        requires
            self.wf(),
            -1 <= dx <= 1,
            -1 <= dy <= 1,
            -1 <= dz <= 1,
        ensures
            p == self.extent().shifted(index, (dx as int, dy as int, dz as int)),
            self.extent().contains(p),
    {
        proof {
            lemma_volume_bounds(self.size);
            lemma_add_mod_noop_right(dx as int, index.x as int, self.size.x_len as int);
            lemma_add_mod_noop_right(dy as int, index.y as int, self.size.y_len as int);
            lemma_add_mod_noop_right(dz as int, index.z as int, self.size.z_len as int);
        }
        let bx: isize = (index.x % self.size.x_len) as isize;
        let by: isize = (index.y % self.size.y_len) as isize;
        let bz: isize = (index.z % self.size.z_len) as isize;
        self.wrap_coord(Point3 { x: bx + dx, y: by + dy, z: bz + dz })
    }

    /// The 26 cells around `index`, wrapped around the faces of the grid, in
    /// the order of `moore_offset`. Offsets that fold onto one cell are all
    /// kept.
    pub fn moore_neighborhood(&self, index: Point3<usize>) -> (neighbors: Vec<Point3<usize>>)
        requires
            self.wf(),
        ensures
            neighbors.len() == 26,
            forall|k: int|
                0 <= k < 26 ==> #[trigger] neighbors[k] == self.extent().shifted(
                    index,
                    moore_offset(k),
                ),
            forall|k: int| 0 <= k < 26 ==> self.extent().contains(#[trigger] neighbors[k]),
            self.extent().steps_leave_cell() || !self.extent().contains(index) ==> forall|k: int|
                0 <= k < 26 ==> #[trigger] neighbors[k] != index,
    {
        let mut neighbors: Vec<Point3<usize>> = Vec::new();
        let mut n: usize = 0;
        while n < 27
            invariant
                self.wf(),
                n <= 27,
                neighbors.len() == if n <= 13 {
                    n as int
                } else {
                    n - 1
                },
                forall|k: int|
                    0 <= k < neighbors.len() ==> #[trigger] neighbors[k]
                        == self.extent().shifted(index, moore_offset(k)),
                forall|k: int|
                    0 <= k < neighbors.len() ==> self.extent().contains(#[trigger] neighbors[k]),
            decreases 27 - n,
        {
            if n != 13 {
                let dx: isize = (n / 9) as isize - 1;
                let dy: isize = ((n / 3) % 3) as isize - 1;
                let dz: isize = (n % 3) as isize - 1;
                let target = self.neighbor(index, dx, dy, dz);
                neighbors.push(target);
            }
            n += 1;
        }
        proof {
            assert forall|k: int|
                0 <= k < 26 && (self.extent().steps_leave_cell() || !self.extent().contains(
                    index,
                )) implies #[trigger] neighbors[k] != index by {
                let d = moore_offset(k);
                assert(d.0 != 0 || d.1 != 0 || d.2 != 0);
                lemma_shifted_differs(self.extent(), index, d);
            }
        }
        neighbors
    }

    /// The 6 cells one unit away from `index` along an axis, wrapped around
    /// the faces of the grid, in the order of `von_neumann_offset`.
    pub fn von_neumann_neighborhood(&self, index: Point3<usize>) -> (neighbors: Vec<
        Point3<usize>,
    >)
        requires
            self.wf(),
        ensures
            neighbors.len() == 6,
            forall|k: int|
                0 <= k < 6 ==> #[trigger] neighbors[k] == self.extent().shifted(
                    index,
                    von_neumann_offset(k),
                ),
            forall|k: int| 0 <= k < 6 ==> self.extent().contains(#[trigger] neighbors[k]),
            self.extent().steps_leave_cell() || !self.extent().contains(index) ==> forall|k: int|
                0 <= k < 6 ==> #[trigger] neighbors[k] != index,
    {
        let mut neighbors: Vec<Point3<usize>> = Vec::new();
        neighbors.push(self.neighbor(index, -1, 0, 0));
        neighbors.push(self.neighbor(index, 1, 0, 0));
        neighbors.push(self.neighbor(index, 0, -1, 0));
        neighbors.push(self.neighbor(index, 0, 1, 0));
        neighbors.push(self.neighbor(index, 0, 0, -1));
        neighbors.push(self.neighbor(index, 0, 0, 1));
        proof {
            assert forall|k: int|
                0 <= k < 6 && (self.extent().steps_leave_cell() || !self.extent().contains(
                    index,
                )) implies #[trigger] neighbors[k] != index by {
                lemma_shifted_differs(self.extent(), index, von_neumann_offset(k));
            }
        }
        neighbors
    }
}

/// A unit step along an axis of extent at least 2 never folds back onto the
/// component it started from.
pub proof fn lemma_unit_step_moves(i: int, d: int, e: int)
    requires
        e >= 2,
        0 <= i < e,
        d == 1 || d == -1,
    ensures
        wrap_axis(i + d, e) != i,
{
    if 0 <= i + d < e {
        lemma_small_mod((i + d) as nat, e as nat);
    } else if i + d == e {
        lemma_fundamental_div_mod_converse(e, e, 1, 0);
    } else {
        lemma_fundamental_div_mod_converse(-1, e, -1, e - 1);
    }
}

/// A cell reached by a non-zero offset of unit steps differs from the cell
/// it was reached from, unless that cell lies in the grid and some extent
/// is 1.
pub proof fn lemma_shifted_differs(size: Size, p: Point3<usize>, d: (int, int, int))
    requires
        size.wf(),
        -1 <= d.0 <= 1 && -1 <= d.1 <= 1 && -1 <= d.2 <= 1,
        d.0 != 0 || d.1 != 0 || d.2 != 0,
        size.steps_leave_cell() || !size.contains(p),
    ensures
        size.shifted(p, d) != p,
        size.contains(size.shifted(p, d)),
{
    lemma_mod_bound(p.x + d.0, size.x_len as int);
    lemma_mod_bound(p.y + d.1, size.y_len as int);
    lemma_mod_bound(p.z + d.2, size.z_len as int);
    if size.contains(p) {
        if d.0 != 0 {
            lemma_unit_step_moves(p.x as int, d.0, size.x_len as int);
        } else if d.1 != 0 {
            lemma_unit_step_moves(p.y as int, d.1, size.y_len as int);
        } else {
            lemma_unit_step_moves(p.z as int, d.2, size.z_len as int);
        }
    }
}

/// Wrapping is periodic: moving a component by one whole extent does not
/// change the cell it folds onto.
pub proof fn lemma_wrap_periodic(c: int, e: int)
    requires
        e > 0,
    ensures
        wrap_axis(c + e, e) == wrap_axis(c, e),
        0 <= wrap_axis(c, e) < e,
{
    lemma_mod_add_multiples_vanish(c, e);
    lemma_mod_bound(c, e);
}

/// Wrapping is periodic on every axis of a grid at once.
pub proof fn lemma_wrap_coord_periodic(size: Size, x: int, y: int, z: int)
    requires
        size.wf(),
    ensures
        size.wrap(x + size.x_len, y, z) == size.wrap(x, y, z),
        size.wrap(x, y + size.y_len, z) == size.wrap(x, y, z),
        size.wrap(x, y, z + size.z_len) == size.wrap(x, y, z),
        size.wrap(x + size.x_len, y + size.y_len, z + size.z_len) == size.wrap(x, y, z),
        size.contains(size.wrap(x, y, z)),
{
    lemma_wrap_periodic(x, size.x_len as int);
    lemma_wrap_periodic(y, size.y_len as int);
    lemma_wrap_periodic(z, size.z_len as int);
}

/// Decoding a position of the cell array gives a coordinate inside the grid
/// whose flat index is that position again.
pub proof fn lemma_decode_in_grid(size: Size, n: int)
    requires
        size.wf(),
        0 <= n < size.volume(),
    ensures
        size.contains(size.decode_index(n)),
        size.flat_index(
            size.decode_index(n).x as int,
            size.decode_index(n).y as int,
            size.decode_index(n).z as int,
        ) == n,
{
    lemma_volume_bounds(size);
    let xl = size.x_len as int;
    let yl = size.y_len as int;
    let zl = size.z_len as int;
    let layer = size.layer();
    let r = n % layer;
    let y = n / layer;
    lemma_fundamental_div_mod(n, layer);
    lemma_mod_bound(n, layer);
    lemma_fundamental_div_mod(r, xl);
    lemma_mod_bound(r, xl);
    assert(0 <= y < yl) by (nonlinear_arith)
        requires
            n == layer * y + r,
            0 <= r < layer,
            0 <= n < yl * layer,
    ;
    assert(0 <= r / xl < zl) by (nonlinear_arith)
        requires
            r == xl * (r / xl) + r % xl,
            0 <= r % xl < xl,
            0 <= r < xl * zl,
    ;
    assert(y * layer == layer * y && (r / xl) * xl == xl * (r / xl)) by (nonlinear_arith);
}

/// Every coordinate inside the grid is the decoding of its own flat index,
/// and that index is a position of the cell array.
pub proof fn lemma_flat_index_in_range(size: Size, p: Point3<usize>)
    requires
        size.wf(),
        size.contains(p),
    ensures
        0 <= size.flat_index(p.x as int, p.y as int, p.z as int) < size.volume(),
        size.decode_index(size.flat_index(p.x as int, p.y as int, p.z as int)) == p,
{
    lemma_volume_bounds(size);
    let xl = size.x_len as int;
    let yl = size.y_len as int;
    let zl = size.z_len as int;
    let layer = size.layer();
    let x = p.x as int;
    let y = p.y as int;
    let z = p.z as int;
    let r = x + z * xl;
    let n = size.flat_index(x, y, z);
    assert(0 <= r < layer) by (nonlinear_arith)
        requires
            0 <= x < xl,
            0 <= z < zl,
            r == x + z * xl,
            layer == xl * zl,
    ;
    assert(0 <= n < yl * layer && n == y * layer + r) by (nonlinear_arith)
        requires
            0 <= r < layer,
            0 <= y < yl,
            n == x + y * layer + z * xl,
            r == x + z * xl,
    ;
    lemma_fundamental_div_mod_converse(n, layer, y, r);
    lemma_fundamental_div_mod_converse(r, xl, z, x);
}

/// Walks the cell states of a grid in storage order.
pub struct StateIterator<'a> {
    automata: &'a Automata,
    index: usize,
}

/// Walks the cells of a grid in storage order, each state with its coordinate.
pub struct CellIterator<'a> {
    state_iterator: StateIterator<'a>,
}

/// Walks the coordinates of a grid in storage order.
pub struct CoordIterator {
    size: Size,
    index: usize,
}

impl Automata {
    /// The item that a walk over the cells yields at position `n`.
    pub open spec fn cell(&self, n: int) -> (Point3<usize>, usize) {
        (self.extent().decode_index(n), self.states()[n])
    }

    /// A walk over the states, from the first cell.
    pub fn iter(&self) -> (it: StateIterator<'_>)
        requires
            self.wf(),
        ensures
            it.wf(),
            it.grid() == *self,
            it.position() == 0,
    {
        StateIterator { automata: self, index: 0 }
    }

    /// A walk over the coordinates, from the first cell.
    pub fn iter_coords(&self) -> (it: CoordIterator)
        requires
            self.wf(),
        ensures
            it.wf(),
            it.extent() == self.extent(),
            it.position() == 0,
    {
        CoordIterator { size: self.size, index: 0 }
    }
}

impl<'a> StateIterator<'a> {
    /// The grid that is walked.
    pub closed spec fn grid(&self) -> Automata {
        *self.automata
    }

    /// Number of cells already yielded.
    pub closed spec fn position(&self) -> int {
        self.index as int
    }

    /// The grid is well formed and the walk has not run past its end.
    pub open spec fn wf(&self) -> bool {
        &&& self.grid().wf()
        &&& 0 <= self.position() <= self.grid().states().len()
    }

    /// Yields the next state, or `None` once every cell was yielded.
    pub fn next(&mut self) -> (r: Option<usize>)
        requires
            old(self).wf(),
        ensures
            final(self).wf(),
            final(self).grid() == old(self).grid(),
            old(self).position() < old(self).grid().states().len() ==> r == Some(
                old(self).grid().states()[old(self).position()],
            ) && final(self).position() == old(self).position() + 1,
            old(self).position() >= old(self).grid().states().len() ==> r.is_none() && final(self).position() == old(self).position(),
    {
        if self.index < self.automata.cells.len() {
            self.index += 1;
            return Some(self.automata.cells[self.index - 1]);
        }
        None
    }

    /// The same walk, yielding each state together with its coordinate.
    pub fn with_coord(self) -> (it: CellIterator<'a>)
        ensures
            it.grid() == self.grid(),
            it.position() == self.position(),
            self.wf() ==> it.wf(),
    {
        CellIterator { state_iterator: self }
    }

    /// The states not yet yielded, in order.
    pub fn collect(self) -> (out: Vec<usize>)
        requires
            self.wf(),
        ensures
            out@ == self.grid().states().skip(self.position()),
    {
        let mut it = self;
        let mut out: Vec<usize> = Vec::new();
        let ghost start = self.position();
        loop
            invariant
                it.wf(),
                it.grid() == self.grid(),
                start == self.position(),
                0 <= start <= it.position(),
                out@ =~= self.grid().states().subrange(start, it.position()),
            ensures
                it.position() == self.grid().states().len(),
            decreases self.grid().states().len() - it.position(),
        {
            match it.next() {
                Some(state) => {
                    out.push(state);
                },
                None => {
                    break ;
                },
            }
        }
        out
    }
}

impl<'a> CellIterator<'a> {
    /// The grid that is walked.
    pub closed spec fn grid(&self) -> Automata {
        self.state_iterator.grid()
    }

    /// Number of cells already yielded.
    pub closed spec fn position(&self) -> int {
        self.state_iterator.position()
    }

    /// The grid is well formed and the walk has not run past its end.
    pub open spec fn wf(&self) -> bool {
        &&& self.grid().wf()
        &&& 0 <= self.position() <= self.grid().states().len()
    }

    /// Yields the next cell, or `None` once every cell was yielded. The
    /// coordinate is the one whose flat index is the cell's position, so
    /// reading the grid there gives the yielded state.
    pub fn next(&mut self) -> (r: Option<(Point3<usize>, usize)>)
        requires
            old(self).wf(),
        ensures
            final(self).wf(),
            final(self).grid() == old(self).grid(),
            old(self).position() < old(self).grid().states().len() ==> r == Some(
                old(self).grid().cell(old(self).position()),
            ) && final(self).position() == old(self).position() + 1,
            old(self).position() >= old(self).grid().states().len() ==> r.is_none() && final(self).position() == old(self).position(),
            r matches Some(c) ==> old(self).grid().extent().contains(c.0) && old(self).grid().state_at(c.0) == c.1,
    {
        let current_index = self.state_iterator.index;
        let size = self.state_iterator.automata.size;
        let current_state = self.state_iterator.next();
        match current_state {
            Some(state) => {
                proof {
                    lemma_decode_in_grid(size, current_index as int);
                }
                Some((decode(size, current_index), state))
            },
            None => None,
        }
    }

    /// The cells not yet yielded, in order.
    pub fn collect(self) -> (out: Vec<(Point3<usize>, usize)>)
        requires
            self.wf(),
        ensures
            out.len() == self.grid().states().len() - self.position(),
            forall|i: int|
                0 <= i < out.len() ==> #[trigger] out[i] == self.grid().cell(
                    self.position() + i,
                ),
            forall|i: int|
                0 <= i < out.len() ==> self.grid().state_at((#[trigger] out[i]).0) == out[i].1,
    {
        let mut it = self;
        let mut out: Vec<(Point3<usize>, usize)> = Vec::new();
        let ghost start = self.position();
        loop
            invariant
                it.wf(),
                it.grid() == self.grid(),
                start == self.position(),
                out.len() == it.position() - start,
                forall|i: int|
                    0 <= i < out.len() ==> #[trigger] out[i] == self.grid().cell(start + i),
                forall|i: int|
                    0 <= i < out.len() ==> self.grid().state_at((#[trigger] out[i]).0)
                        == out[i].1,
            ensures
                it.position() == self.grid().states().len(),
            decreases self.grid().states().len() - it.position(),
        {
            match it.next() {
                Some(cell) => {
                    out.push(cell);
                },
                None => {
                    break ;
                },
            }
        }
        out
    }
}

impl CoordIterator {
    /// The extents of the grid that is walked.
    pub closed spec fn extent(&self) -> Size {
        self.size
    }

    /// Number of coordinates already yielded.
    pub closed spec fn position(&self) -> int {
        self.index as int
    }

    /// The extents are valid and the walk has not run past the last cell.
    pub open spec fn wf(&self) -> bool {
        &&& self.extent().wf()
        &&& 0 <= self.position() <= self.extent().volume()
    }

    /// Yields the next coordinate, or `None` once every cell was yielded.
    pub fn next(&mut self) -> (r: Option<Point3<usize>>)
        requires
            old(self).wf(),
        ensures
            final(self).wf(),
            final(self).extent() == old(self).extent(),
            old(self).position() < old(self).extent().volume() ==> r == Some(
                old(self).extent().decode_index(old(self).position()),
            ) && final(self).position() == old(self).position() + 1,
            old(self).position() >= old(self).extent().volume() ==> r.is_none() && final(self).position() == old(self).position(),
            r matches Some(p) ==> old(self).extent().contains(p),
    {
        proof {
            lemma_volume_bounds(self.size);
        }
        if self.index >= self.size.x_len * self.size.y_len * self.size.z_len {
            return None;
        }
        proof {
            lemma_decode_in_grid(self.size, self.index as int);
        }
        let p = decode(self.size, self.index);
        self.index += 1;
        Some(p)
    }

    /// The coordinates not yet yielded, in order.
    pub fn collect(self) -> (out: Vec<Point3<usize>>)
        requires
            self.wf(),
        ensures
            out.len() == self.extent().volume() - self.position(),
            forall|i: int|
                0 <= i < out.len() ==> #[trigger] out[i] == self.extent().decode_index(
                    self.position() + i,
                ),
    {
        let mut it = self;
        let mut out: Vec<Point3<usize>> = Vec::new();
        let ghost start = self.position();
        loop
            invariant
                it.wf(),
                it.extent() == self.extent(),
                start == self.position(),
                out.len() == it.position() - start,
                forall|i: int|
                    0 <= i < out.len() ==> #[trigger] out[i] == self.extent().decode_index(
                        start + i,
                    ),
            ensures
                it.position() == self.extent().volume(),
            decreases self.extent().volume() - it.position(),
        {
            match it.next() {
                Some(p) => {
                    out.push(p);
                },
                None => {
                    break ;
                },
            }
        }
        out
    }
}

/// The coordinate kept at position `n` of the cell array.
fn decode(size: Size, n: usize) -> (p: Point3<usize>)
    requires
        size.wf(),
        n < size.volume(),
    ensures
        p == size.decode_index(n as int),
{
    proof {
        lemma_volume_bounds(size);
        lemma_decode_in_grid(size, n as int);
    }
    let layer: usize = size.x_len * size.z_len;
    let y: usize = n / layer;
    let rest: usize = n % layer;
    Point3 { x: rest % size.x_len, y, z: rest / size.x_len }
}

} // verus!
