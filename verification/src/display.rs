use vstd::prelude::*;

verus! {

/// Width of the framebuffer in pixels.
pub const W: u8 = 64;

/// Height of the framebuffer in pixels.
pub const H: u8 = 32;

/// Leftmost bit of a row, used for masking pixels.
pub const MSB: u64 = 0x8000_0000_0000_0000;

/// The framebuffer as a mathematical value: the pixel rows and the list of
/// coordinates dirtied since the last drain, in the order they were dirtied.
pub ghost struct DisplayV {
    pub grid: Seq<u64>,
    pub dirt: Seq<(u8, u8)>,
}

/// The single-bit mask of the pixel in column `x` of a row: column 0 is
/// the most significant bit.
pub open spec fn msb_mask(x: int) -> u64 {
    MSB >> (x as u64)
}

/// Whether the pixel at column `x` of row `y` is set.
pub open spec fn pixel(grid: Seq<u64>, x: int, y: int) -> bool {
    grid[y] & msb_mask(x) != 0
}

/// The coordinates of the set pixels of one row, from column `x` on,
/// leftmost first.
pub open spec fn row_set_coords(row: u64, y: int, x: int) -> Seq<(u8, u8)>
    decreases 64 - x,
{
    if x < 0 || x >= 64 {
        Seq::empty()
    } else {
        (if row & msb_mask(x) != 0 {
            seq![((x as u8), (y as u8))]
        } else {
            Seq::empty()
        }) + row_set_coords(row, y, x + 1)
    }
}

/// The coordinates of all set pixels of the rows from `y` down, row by
/// row, leftmost first within a row.
pub open spec fn grid_set_coords(grid: Seq<u64>, y: int) -> Seq<(u8, u8)>
    decreases 32 - y,
{
    if y < 0 || y >= 32 {
        Seq::empty()
    } else {
        row_set_coords(grid[y], y, 0) + grid_set_coords(grid, y + 1)
    }
}

/// A 64x32 one-bit framebuffer, packed as 32 rows of 64 bits, with an
/// explicit list of the coordinates changed since the last render drain.
#[derive(Clone)]
pub struct Display {
    /// Pixel rows, top to bottom; bit 63 of a row is column 0.
    grid: Vec<u64>,
    /// Dirty pixels, in the order they were touched.
    dirt: Vec<(u8, u8)>,
}

impl View for Display {
    type V = DisplayV;

    closed spec fn view(&self) -> DisplayV {
        DisplayV { grid: self.grid@, dirt: self.dirt@ }
    }
}

impl Display {
    /// A well-formed framebuffer has 32 rows and only in-range dirty
    /// coordinates.
    pub open spec fn wf(self) -> bool {
        &&& self@.grid.len() == 32
        &&& forall|i: int|
            0 <= i < self@.dirt.len() ==> (#[trigger] self@.dirt[i]).0 < 64 && self@.dirt[i].1 < 32
    }

    /// A blank framebuffer: every pixel clear, nothing dirty.
    pub fn new() -> (r: Self)
        ensures
            r.wf(),
            r@.grid == Seq::new(32, |y: int| 0u64),
            r@.dirt == Seq::<(u8, u8)>::empty(),
    {
        let mut grid: Vec<u64> = Vec::new();
        let mut i: usize = 0;
        while i < 32
            invariant
                i <= 32,
                grid@.len() == i,
                forall|k: int| 0 <= k < i ==> grid@[k] == 0u64,
            decreases 32 - i,
        {
            grid.push(0);
            i = i + 1;
        }
        let r = Display { grid, dirt: Vec::new() };
        assert(r@.grid =~= Seq::new(32, |y: int| 0u64));
        assert(r@.dirt =~= Seq::<(u8, u8)>::empty());
        r
    }

    /// Flip one pixel, coordinates taken modulo the framebuffer size, and
    /// report whether it was set beforehand (1 for set, 0 for clear): the
    /// per-bit collision signal. The coordinate is recorded as dirty.
    pub fn toggle(&mut self, x: u8, y: u8) -> (hit: u8)
        requires
            old(self).wf(),
        ensures
            final(self).wf(),
            ({
                let xm = x as int % 64;
                let ym = y as int % 32;
                &&& hit == (if pixel(old(self)@.grid, xm, ym) {
                    1u8
                } else {
                    0u8
                })
                &&& final(self)@.grid == old(self)@.grid.update(
                    ym,
                    old(self)@.grid[ym] ^ msb_mask(xm),
                )
                &&& final(self)@.dirt == old(self)@.dirt.push(((xm as u8), (ym as u8)))
            }),
    {
        let x = x % W;
        let y = y % H;
        let bit: u64 = MSB >> (x as u64);
        let row = self.grid[y as usize];
        let hit = row & bit != 0;
        self.grid[y as usize] = row ^ bit;
        let ghost d0 = self@.dirt;
        self.dirt.push((x, y));
        proof {
            assert forall|i: int|
                0 <= i < self@.dirt.len() implies (#[trigger] self@.dirt[i]).0 < 64
                && self@.dirt[i].1 < 32 by {
                if i < d0.len() {
                    assert(old(self)@.dirt[i].0 < 64 && old(self)@.dirt[i].1 < 32);
                    assert(self@.dirt[i] == d0[i]);
                } else {
                    assert(self@.dirt[i] == (x, y));
                }
            }
        }
        if hit {
            1
        } else {
            0
        }
    }

    /// Zero every pixel, and mark every pixel that was set as dirty (row
    /// by row, leftmost first), so that a renderer can blank them.
    pub fn clear(&mut self)
        requires
            old(self).wf(),
        ensures
            final(self).wf(),
            final(self)@.grid == Seq::new(32, |y: int| 0u64),
            final(self)@.dirt == grid_set_coords(old(self)@.grid, 0),
    {
        self.dirt.clear();
        let mut y: usize = 0;
        while y < 32
            invariant
                old(self).wf(),
                y <= 32,
                self@.grid.len() == 32,
                forall|k: int| 0 <= k < y ==> self@.grid[k] == 0u64,
                forall|k: int| y <= k < 32 ==> self@.grid[k] == old(self)@.grid[k],
                forall|i: int|
                    0 <= i < self@.dirt.len() ==> (#[trigger] self@.dirt[i]).0 < 64
                        && self@.dirt[i].1 < 32,
                self@.dirt + grid_set_coords(old(self)@.grid, y as int) == grid_set_coords(
                    old(self)@.grid,
                    0,
                ),
            decreases 32 - y,
        {
            let row = self.grid[y];
            let ghost drow = self@.dirt;
            let mut x: usize = 0;
            while x < 64
                invariant
                    old(self).wf(),
                    y < 32,
                    x <= 64,
                    self@.grid.len() == 32,
                    row == old(self)@.grid[y as int],
                    forall|k: int| 0 <= k < y ==> self@.grid[k] == 0u64,
                    forall|k: int| y <= k < 32 ==> self@.grid[k] == old(self)@.grid[k],
                    forall|i: int|
                        0 <= i < self@.dirt.len() ==> (#[trigger] self@.dirt[i]).0 < 64
                            && self@.dirt[i].1 < 32,
                    self@.dirt + row_set_coords(row, y as int, x as int) == drow + row_set_coords(
                        row,
                        y as int,
                        0,
                    ),
                decreases 64 - x,
            {
                let bit: u64 = MSB >> (x as u64);
                let ghost dprev = self@.dirt;
                if row & bit != 0 {
                    self.dirt.push(((x as u8), (y as u8)));
                    proof {
                        assert forall|i: int|
                            0 <= i < self@.dirt.len() implies (#[trigger] self@.dirt[i]).0 < 64
                            && self@.dirt[i].1 < 32 by {
                            if i < dprev.len() {
                                assert(self@.dirt[i] == dprev[i]);
                            } else {
                                assert(self@.dirt[i] == ((x as u8), (y as u8)));
                            }
                        }
                        assert(row_set_coords(row, y as int, x as int) == seq![
                            ((x as u8), (y as u8)),
                        ] + row_set_coords(row, y as int, x as int + 1));
                        assert(self@.dirt + row_set_coords(row, y as int, x as int + 1) =~= dprev
                            + row_set_coords(row, y as int, x as int));
                    }
                } else {
                    proof {
                        assert(row_set_coords(row, y as int, x as int) =~= row_set_coords(
                            row,
                            y as int,
                            x as int + 1,
                        ));
                    }
                }
                x = x + 1;
            }
            proof {
                assert(row_set_coords(row, y as int, 64) =~= Seq::<(u8, u8)>::empty());
                assert(self@.dirt =~= self@.dirt + row_set_coords(row, y as int, 64));
                assert(self@.dirt =~= drow + row_set_coords(row, y as int, 0));
                assert(grid_set_coords(old(self)@.grid, y as int) == row_set_coords(
                    old(self)@.grid[y as int],
                    y as int,
                    0,
                ) + grid_set_coords(old(self)@.grid, y as int + 1));
                assert(self@.dirt + grid_set_coords(old(self)@.grid, y as int + 1)
                    =~= grid_set_coords(old(self)@.grid, 0));
            }
            let ghost dkeep = self@.dirt;
            self.grid[y] = 0;
            proof {
                assert(self@.dirt == dkeep);
            }
            y = y + 1;
        }
        proof {
            assert(grid_set_coords(old(self)@.grid, 32) =~= Seq::<(u8, u8)>::empty());
            assert(self@.dirt =~= self@.dirt + grid_set_coords(old(self)@.grid, 32));
            assert(self@.grid =~= Seq::new(32, |y: int| 0u64));
        }
    }

    /// Yield the dirty coordinates with each one's current set/clear
    /// state, in the order they were dirtied, and reset the dirty list.
    /// This is the interface a display driver paints from.
    pub fn drain(&mut self) -> (out: Vec<(u8, u8, bool)>)
        requires
            old(self).wf(),
        ensures
            final(self).wf(),
            final(self)@.grid == old(self)@.grid,
            final(self)@.dirt == Seq::<(u8, u8)>::empty(),
            out@.len() == old(self)@.dirt.len(),
            forall|i: int|
                0 <= i < out@.len() ==> ((#[trigger] out@[i]).0 == old(self)@.dirt[i].0
                    && out@[i].1 == old(self)@.dirt[i].1 && out@[i].2 == pixel(
                    old(self)@.grid,
                    old(self)@.dirt[i].0 as int,
                    old(self)@.dirt[i].1 as int,
                )),
    {
        let mut out: Vec<(u8, u8, bool)> = Vec::new();
        let mut i: usize = 0;
        while i < self.dirt.len()
            invariant
                old(self).wf(),
                *self == *old(self),
                i <= self@.dirt.len(),
                out@.len() == i,
                forall|k: int|
                    0 <= k < i ==> ((#[trigger] out@[k]).0 == old(self)@.dirt[k].0 && out@[k].1
                        == old(self)@.dirt[k].1 && out@[k].2 == pixel(
                        old(self)@.grid,
                        old(self)@.dirt[k].0 as int,
                        old(self)@.dirt[k].1 as int,
                    )),
            decreases self@.dirt.len() - i,
        {
            let (x, y) = self.dirt[i];
            let set = self.grid[y as usize] & (MSB >> (x as u64)) != 0;
            out.push((x, y, set));
            i = i + 1;
        }
        self.dirt.clear();
        assert(self@.dirt =~= Seq::<(u8, u8)>::empty());
        out
    }
}

} // verus!
