//! A square grid of cells, and the rule by which a colony of cells on it
//! lives on from one turn to the next.

use crate::rng::random_u32;
use rand::prng::XorShiftRng;
use vstd::prelude::*;

verus! {

pub const WIDTH: i32 = 150;

pub const HEIGHT: i32 = 150;

/// The grid: a column for each `x`, a cell for each `y` in it.
pub type Grid = [[u32; 150]; 150];

/// Whether a place lies on the grid.
pub open spec fn on_grid(x: int, y: int) -> bool {
    0 <= x < WIDTH && 0 <= y < HEIGHT
}

/// A safe way to read and to change a grid.
pub trait MapTrait: Sized {
    /// The cells, column by column.
    spec fn cells(&self) -> Seq<Seq<u32>>;

    /// The cell at a place, if the place lies on the grid.
    fn get(&self, x: i32, y: i32) -> (r: Option<u32>)
        ensures
            r == (if on_grid(x as int, y as int) {
                Some(self.cells()[x as int][y as int])
            } else {
                None
            }),
    ;

    /// Sets the cell at a place, if the place lies on the grid.
    fn set(&mut self, x: i32, y: i32, val: u32)
        ensures
            forall|a: int, b: int|
                on_grid(a, b) ==> #[trigger] final(self).cells()[a][b] == (if a == x && b == y {
                    val
                } else {
                    old(self).cells()[a][b]
                }),
    ;

    /// Lets the colony live one turn: a cell that holds one stays with two
    /// or three around it and is emptied otherwise, and any other cell is
    /// set to one with exactly three around it.
    fn update(&mut self)
        requires
            calm(old(self).cells()),
        ensures
            forall|a: int, b: int|
                on_grid(a, b) ==> #[trigger] final(self).cells()[a][b] == next_cell(
                    old(self).cells()[a][b],
                    around(old(self).cells(), a, b),
                ),
    ;

    /// Takes over every cell of another grid.
    fn copy_from(&mut self, s: &Grid)
        ensures
            forall|a: int, b: int| on_grid(a, b) ==> #[trigger] final(self).cells()[a][b] == s@[a]@[b],
    ;
}

/// What a place counts for: its cell, or nothing off the grid.
pub open spec fn at(m: Seq<Seq<u32>>, x: int, y: int) -> int {
    if on_grid(x, y) {
        m[x][y] as int
    } else {
        0
    }
}

/// The sum of the three places of column `x` from `y - 1` to `y + 1`.
pub open spec fn column(m: Seq<Seq<u32>>, x: int, y: int) -> int {
    at(m, x, y - 1) + at(m, x, y) + at(m, x, y + 1)
}

/// The sum of the nine places round a place, itself among them.
pub open spec fn block(m: Seq<Seq<u32>>, x: int, y: int) -> int {
    column(m, x - 1, y) + column(m, x, y) + column(m, x + 1, y)
}

/// The sum of the eight places next to a place.
pub open spec fn around(m: Seq<Seq<u32>>, x: int, y: int) -> int {
    block(m, x, y) - at(m, x, y)
}

/// Whether the sum round every place fits in a cell.
pub open spec fn calm(m: Seq<Seq<u32>>) -> bool {
    forall|x: int, y: int| on_grid(x, y) ==> #[trigger] block(m, x, y) <= u32::MAX
}

/// What becomes of a cell with the sum `n` around it.
pub open spec fn next_cell(c: u32, n: int) -> u32 {
    if c == 1 {
        if n < 2 || n > 3 {
            0
        } else {
            c
        }
    } else if n == 3 {
        1
    } else {
        c
    }
}

/// A grid of empty cells.
pub fn zerotable() -> (m: Grid)
    ensures
        forall|x: int, y: int| on_grid(x, y) ==> #[trigger] m@[x]@[y] == 0,
{
    [[0; 150]; 150]
}

/// A grid whose every cell holds zero or one, as a random source decides.
pub fn randomtable(r: &mut XorShiftRng) -> (m: Grid)
    ensures
        forall|x: int, y: int| on_grid(x, y) ==> #[trigger] m@[x]@[y] <= 1,
{
    let mut ret = zerotable();
    let mut i: usize = 0;
    while i < 150
        invariant
            i <= 150,
            forall|x: int, y: int| on_grid(x, y) ==> #[trigger] ret@[x]@[y] <= 1,
        decreases 150 - i,
    {
        let mut j: usize = 0;
        while j < 150
            invariant
                i < 150,
                j <= 150,
                forall|x: int, y: int| on_grid(x, y) ==> #[trigger] ret@[x]@[y] <= 1,
            decreases 150 - j,
        {
            let draw = random_u32(r);
            let bit = draw & 1;
            assert(draw & 1 <= 1) by (bit_vector);
            put(&mut ret, i, j, bit);
            j += 1;
        }
        i += 1;
    }
    ret
}

/// Decides whether a place lies on the grid.
pub fn check(x: i32, y: i32) -> (r: bool)
    ensures
        r == on_grid(x as int, y as int),
{
    if x < 0 || x >= WIDTH || y < 0 || y >= HEIGHT {
        return false;
    }
    true
}

/// Sets one cell, and leaves every other as it is.
fn put(m: &mut Grid, x: usize, y: usize, val: u32)
    requires
        x < 150,
        y < 150,
    ensures
        forall|a: int, b: int|
            0 <= a < 150 && 0 <= b < 150 ==> #[trigger] final(m)@[a]@[b] == (if a == x && b == y {
                val
            } else {
                old(m)@[a]@[b]
            }),
{
    m[x][y] = val;
}

/// What a place counts for.
fn value_at(m: &Grid, x: i32, y: i32) -> (v: u32)
    ensures
        v as int == at(m.cells(), x as int, y as int),
{
    match m.get(x, y) {
        Some(u) => u,
        None => 0,
    }
}

/// Sums the eight places next to a place on the grid.
fn count_around(m: &Grid, i: i32, j: i32) -> (n: u32)
    requires
        on_grid(i as int, j as int),
        block(m.cells(), i as int, j as int) <= u32::MAX,
    ensures
        n as int == around(m.cells(), i as int, j as int),
{
    let mut n: u32 = 0;
    n = n + value_at(m, i - 1, j - 1);
    n = n + value_at(m, i - 1, j);
    n = n + value_at(m, i - 1, j + 1);
    n = n + value_at(m, i, j - 1);
    n = n + value_at(m, i, j);
    n = n + value_at(m, i, j + 1);
    n = n + value_at(m, i + 1, j - 1);
    n = n + value_at(m, i + 1, j);
    n = n + value_at(m, i + 1, j + 1);
    n - value_at(m, i, j)
}

/// Decides what becomes of a cell with the sum `n` around it.
fn live_on(c: u32, n: u32) -> (r: u32)
    ensures
        r == next_cell(c, n as int),
{
    if c == 1 {
        if n < 2 || n > 3 {
            0
        } else {
            c
        }
    } else if n == 3 {
        1
    } else {
        c
    }
}

impl MapTrait for Grid {
    open spec fn cells(&self) -> Seq<Seq<u32>> {
        Seq::new(150, |x: int| self@[x]@)
    }

    fn get(&self, x: i32, y: i32) -> (r: Option<u32>) {
        if check(x, y) {
            return Some(self[x as usize][y as usize]);
        }
        None
    }

    fn set(&mut self, x: i32, y: i32, val: u32) {
        if check(x, y) {
            put(self, x as usize, y as usize, val);
        }
    }

    fn update(&mut self) {
        let ghost before = *self;
        let mut nei = zerotable();
        let mut i: i32 = 0;
        while i < WIDTH
            invariant
                0 <= i <= WIDTH,
                *self == before,
                calm(before.cells()),
                forall|a: int, b: int|
                    0 <= a < i && 0 <= b < HEIGHT ==> #[trigger] nei@[a]@[b] as int == around(
                        before.cells(),
                        a,
                        b,
                    ),
            decreases WIDTH - i,
        {
            let mut j: i32 = 0;
            while j < HEIGHT
                invariant
                    0 <= i < WIDTH,
                    0 <= j <= HEIGHT,
                    *self == before,
                    calm(before.cells()),
                    forall|a: int, b: int|
                        0 <= a < i && 0 <= b < HEIGHT ==> #[trigger] nei@[a]@[b] as int == around(
                            before.cells(),
                            a,
                            b,
                        ),
                    forall|b: int|
                        0 <= b < j ==> #[trigger] nei@[i as int]@[b] as int == around(
                            before.cells(),
                            i as int,
                            b,
                        ),
                decreases HEIGHT - j,
            {
                assert(on_grid(i as int, j as int));
                assert(block(before.cells(), i as int, j as int) <= u32::MAX);
                let n = count_around(self, i, j);
                put(&mut nei, i as usize, j as usize, n);
                j += 1;
            }
            i += 1;
        }
        let mut i: usize = 0;
        while i < 150
            invariant
                i <= 150,
                forall|a: int, b: int|
                    on_grid(a, b) ==> #[trigger] nei@[a]@[b] as int == around(before.cells(), a, b),
                forall|a: int, b: int|
                    0 <= a < i && 0 <= b < 150 ==> #[trigger] self@[a]@[b] == next_cell(
                        before@[a]@[b],
                        around(before.cells(), a, b),
                    ),
                forall|a: int, b: int|
                    i <= a < 150 && 0 <= b < 150 ==> #[trigger] self@[a]@[b] == before@[a]@[b],
            decreases 150 - i,
        {
            let mut j: usize = 0;
            while j < 150
                invariant
                    i < 150,
                    j <= 150,
                    forall|a: int, b: int|
                        on_grid(a, b) ==> #[trigger] nei@[a]@[b] as int == around(before.cells(), a, b),
                    forall|a: int, b: int|
                        0 <= a < i && 0 <= b < 150 ==> #[trigger] self@[a]@[b] == next_cell(
                            before@[a]@[b],
                            around(before.cells(), a, b),
                        ),
                    forall|a: int, b: int|
                        i < a < 150 && 0 <= b < 150 ==> #[trigger] self@[a]@[b] == before@[a]@[b],
                    forall|b: int|
                        0 <= b < j ==> #[trigger] self@[i as int]@[b] == next_cell(
                            before@[i as int]@[b],
                            around(before.cells(), i as int, b),
                        ),
                    forall|b: int| j <= b < 150 ==> #[trigger] self@[i as int]@[b] == before@[i as int]@[b],
                decreases 150 - j,
            {
                assert(on_grid(i as int, j as int));
                let next = live_on(self[i][j], nei[i][j]);
                put(self, i, j, next);
                j += 1;
            }
            i += 1;
        }
    }

    fn copy_from(&mut self, s: &Grid) {
        let mut i: usize = 0;
        while i < 150
            invariant
                i <= 150,
                forall|a: int, b: int| 0 <= a < i && 0 <= b < 150 ==> #[trigger] self@[a]@[b] == s@[a]@[b],
            decreases 150 - i,
        {
            let mut j: usize = 0;
            while j < 150
                invariant
                    i < 150,
                    j <= 150,
                    forall|a: int, b: int|
                        0 <= a < i && 0 <= b < 150 ==> #[trigger] self@[a]@[b] == s@[a]@[b],
                    forall|b: int| 0 <= b < j ==> #[trigger] self@[i as int]@[b] == s@[i as int]@[b],
                decreases 150 - j,
            {
                put(self, i, j, s[i][j]);
                j += 1;
            }
            i += 1;
        }
    }
}

} // verus!
