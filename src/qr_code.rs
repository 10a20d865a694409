//! The module matrix and the layout of a QR symbol: finder, timing and alignment
//! patterns, format and version information, zig-zag data placement and the margin.
use crate::reed_solomon::{bits_of, format_value, version_value, QrError, ReedSolomonData};
use crate::tables::{ByteNameOfMode, ErrorLevel, Mask, MARGIN};
use crate::utils::{alignment_positions, apply_mask, get_alignment, masked_bit};
use vstd::prelude::*;
use vstd::string::StringSliceAdditionalSpecFns;

verus! {

/// A rectangular grid of cells, stored row by row.
pub struct Matrix<T> {
    pub size_x: u32,
    pub size_y: u32,
    pub matrix: Vec<Vec<T>>,
}

/// A grid of size_y rows of size_x cells.
pub open spec fn grid_wf<T>(g: Seq<Seq<T>>, size_x: int, size_y: int) -> bool {
    g.len() == size_y && forall|y: int| 0 <= y < size_y ==> #[trigger] g[y].len() == size_x
}

/// g with the cells of p written from (px, py) on.
pub open spec fn paste<T>(g: Seq<Seq<T>>, px: int, py: int, p: Seq<Seq<T>>) -> Seq<Seq<T>> {
    Seq::new(
        g.len(),
        |y: int|
            Seq::new(
                g[y].len(),
                |x: int|
                    if py <= y < py + p.len() && px <= x < px + p[y - py].len() {
                        p[y - py][x - px]
                    } else {
                        g[y][x]
                    },
            ),
    )
}

/// g with one cell replaced.
pub open spec fn set_cell<T>(g: Seq<Seq<T>>, x: int, y: int, v: T) -> Seq<Seq<T>> {
    g.update(y, g[y].update(x, v))
}

/// A grid filled with one value.
pub open spec fn filled<T>(size_x: int, size_y: int, v: T) -> Seq<Seq<T>> {
    Seq::new(size_y as nat, |y: int| Seq::new(size_x as nat, |x: int| v))
}

impl<T: Copy> Matrix<T> {
    /// The cells, row by row.
    pub open spec fn cells(&self) -> Seq<Seq<T>> {
        self.matrix@.map_values(|r: Vec<T>| r@)
    }

    pub open spec fn wf(&self) -> bool {
        grid_wf(self.cells(), self.size_x as int, self.size_y as int)
    }

    /// A matrix of the given size with every cell set to filler.
    pub fn create(size_x: u32, size_y: u32, filler: &T) -> (r: Matrix<T>)
        ensures
            r.wf(),
            r.size_x == size_x,
            r.size_y == size_y,
            r.cells() == filled(size_x as int, size_y as int, *filler),
    {
        let mut vec_table: Vec<Vec<T>> = Vec::new();
        let mut i: u32 = 0;
        while i < size_y
            invariant
                i <= size_y,
                vec_table.len() == i,
                forall|y: int| 0 <= y < i ==> #[trigger] vec_table@[y]@ == Seq::new(size_x as nat, |x: int| *filler),
            decreases size_y - i,
        {
            let mut vec_row: Vec<T> = Vec::new();
            let mut j: u32 = 0;
            while j < size_x
                invariant
                    j <= size_x,
                    vec_row@ == Seq::new(j as nat, |x: int| *filler),
                decreases size_x - j,
            {
                vec_row.push(*filler);
                assert(vec_row@ =~= Seq::new((j + 1) as nat, |x: int| *filler));
                j = j + 1;
            }
            vec_table.push(vec_row);
            i = i + 1;
        }
        let r = Matrix { size_x, size_y, matrix: vec_table };
        assert(r.cells() =~= filled(size_x as int, size_y as int, *filler));
        r
    }

    /// Writes one cell; point is (column, row).
    pub fn put(&mut self, point: (u32, u32), value: T)
        requires
            old(self).wf(),
            point.0 < old(self).size_x,
            point.1 < old(self).size_y,
        ensures
            final(self).wf(),
            final(self).size_x == old(self).size_x,
            final(self).size_y == old(self).size_y,
            final(self).cells() == set_cell(old(self).cells(), point.0 as int, point.1 as int, value),
    {
        let ghost before = self.cells();
        let y = point.1 as usize;
        let x = point.0 as usize;
        assert(self.matrix@[y as int]@ == before[y as int]);
        self.matrix[y].set(x, value);
        assert(self.cells() =~= set_cell(before, x as int, y as int, value));
    }

    /// Reads one cell; point is (column, row).
    pub fn get(&self, point: (u32, u32)) -> (r: T)
        requires
            self.wf(),
            point.0 < self.size_x,
            point.1 < self.size_y,
        ensures
            r == self.cells()[point.1 as int][point.0 as int],
    {
        assert(self.matrix@[point.1 as int]@ == self.cells()[point.1 as int]);
        self.matrix[point.1 as usize][point.0 as usize]
    }

    /// Swaps rows and columns.
    pub fn transpose(&mut self)
        requires
            old(self).wf(),
            old(self).size_x >= 1,
            old(self).size_y >= 1,
        ensures
            final(self).wf(),
            final(self).size_x == old(self).size_y,
            final(self).size_y == old(self).size_x,
            forall|y: int, x: int|
                0 <= y < old(self).size_x && 0 <= x < old(self).size_y ==> #[trigger] final(self).cells()[y][x]
                    == old(self).cells()[x][y],
    {
        let first = self.get((0, 0));
        let mut new_matrix: Matrix<T> = Matrix::create(self.size_y, self.size_x, &first);
        let mut i: u32 = 0;
        while i < new_matrix.size_y
            invariant
                self.wf(),
                new_matrix.wf(),
                new_matrix.size_x == self.size_y,
                new_matrix.size_y == self.size_x,
                i <= new_matrix.size_y,
                forall|y: int, x: int|
                    0 <= y < i && 0 <= x < new_matrix.size_x ==> #[trigger] new_matrix.cells()[y][x]
                        == self.cells()[x][y],
            decreases new_matrix.size_y - i,
        {
            let mut j: u32 = 0;
            while j < new_matrix.size_x
                invariant
                    self.wf(),
                    new_matrix.wf(),
                    new_matrix.size_x == self.size_y,
                    new_matrix.size_y == self.size_x,
                    i < new_matrix.size_y,
                    j <= new_matrix.size_x,
                    forall|y: int, x: int|
                        (0 <= y < i && 0 <= x < new_matrix.size_x) || (y == i && 0 <= x < j)
                            ==> #[trigger] new_matrix.cells()[y][x] == self.cells()[x][y],
                decreases new_matrix.size_x - j,
            {
                let v = self.get((i, j));
                new_matrix.put((j, i), v);
                j = j + 1;
            }
            i = i + 1;
        }
        *self = new_matrix;
    }

    /// Writes the entries of vec from point on, along the row when horizontal and down
    /// the column otherwise.
    #[verifier::rlimit(50)]
    pub fn put_vec(&mut self, point: (u32, u32), vec: &Vec<T>, horizontal: bool)
        requires
            old(self).wf(),
            horizontal ==> point.0 + vec.len() <= old(self).size_x && point.1 < old(self).size_y,
            !horizontal ==> point.1 + vec.len() <= old(self).size_y && point.0 < old(self).size_x,
        ensures
            final(self).wf(),
            final(self).size_x == old(self).size_x,
            final(self).size_y == old(self).size_y,
            final(self).cells() == paste(
                old(self).cells(),
                point.0 as int,
                point.1 as int,
                if horizontal {
                    seq![vec@]
                } else {
                    Seq::new(vec.len() as nat, |i: int| seq![vec@[i]])
                },
            ),
    {
        let ghost before = self.cells();
        let ghost p = if horizontal {
            seq![vec@]
        } else {
            Seq::new(vec.len() as nat, |i: int| seq![vec@[i]])
        };
        let mut i: usize = 0;
        assert(self.cells() =~~= paste(
            before,
            point.0 as int,
            point.1 as int,
            if horizontal {
                seq![vec@.take(0)]
            } else {
                Seq::new(0, |k: int| seq![vec@[k]])
            },
        ));
        while i < vec.len()
            invariant
                self.wf(),
                self.size_x == old(self).size_x,
                self.size_y == old(self).size_y,
                before == old(self).cells(),
                grid_wf(before, self.size_x as int, self.size_y as int),
                i <= vec.len(),
                horizontal ==> point.0 + vec.len() <= self.size_x && point.1 < self.size_y,
                !horizontal ==> point.1 + vec.len() <= self.size_y && point.0 < self.size_x,
                p == (if horizontal {
                    seq![vec@]
                } else {
                    Seq::new(vec.len() as nat, |k: int| seq![vec@[k]])
                }),
                self.cells() == paste(
                    before,
                    point.0 as int,
                    point.1 as int,
                    if horizontal {
                        seq![vec@.take(i as int)]
                    } else {
                        Seq::new(i as nat, |k: int| seq![vec@[k]])
                    },
                ),
            decreases vec.len() - i,
        {
            let ghost cur = self.cells();
            if horizontal {
                self.put((point.0 + i as u32, point.1), vec[i]);
                assert(self.cells() =~~= paste(before, point.0 as int, point.1 as int, seq![vec@.take(i + 1)]));
            } else {
                self.put((point.0, point.1 + i as u32), vec[i]);
                assert(self.cells() =~~= paste(
                    before,
                    point.0 as int,
                    point.1 as int,
                    Seq::new((i + 1) as nat, |k: int| seq![vec@[k]]),
                ));
            }
            i = i + 1;
        }
        assert(vec@.take(vec.len() as int) =~= vec@);
    }

    /// Copies another matrix in with its top-left cell at point.
    #[verifier::rlimit(50)]
    pub fn put_matrix(&mut self, point: (u32, u32), matrix: &Matrix<T>)
        requires
            old(self).wf(),
            matrix.wf(),
            point.0 + matrix.size_x <= old(self).size_x,
            point.1 + matrix.size_y <= old(self).size_y,
        ensures
            final(self).wf(),
            final(self).size_x == old(self).size_x,
            final(self).size_y == old(self).size_y,
            final(self).cells() == paste(old(self).cells(), point.0 as int, point.1 as int, matrix.cells()),
    {
        let ghost before = self.cells();
        let ghost mc = matrix.cells();
        assert(mc.take(0) =~= Seq::<Seq<T>>::empty());
        assert(self.cells() =~~= paste(before, point.0 as int, point.1 as int, mc.take(0)));
        let mut i: u32 = 0;
        while i < matrix.size_y
            invariant
                self.wf(),
                matrix.wf(),
                mc == matrix.cells(),
                self.size_x == old(self).size_x,
                self.size_y == old(self).size_y,
                before == old(self).cells(),
                grid_wf(before, self.size_x as int, self.size_y as int),
                point.0 + matrix.size_x <= self.size_x,
                point.1 + matrix.size_y <= self.size_y,
                i <= matrix.size_y,
                self.cells() == paste(before, point.0 as int, point.1 as int, mc.take(i as int)),
            decreases matrix.size_y - i,
        {
            let mut j: u32 = 0;
            assert(self.cells() =~~= paste(
                before,
                point.0 as int,
                point.1 as int,
                mc.take(i as int).push(mc[i as int].take(0)),
            ));
            while j < matrix.size_x
                invariant
                    self.wf(),
                    matrix.wf(),
                    mc == matrix.cells(),
                    self.size_x == old(self).size_x,
                    self.size_y == old(self).size_y,
                    grid_wf(before, self.size_x as int, self.size_y as int),
                    point.0 + matrix.size_x <= self.size_x,
                    point.1 + matrix.size_y <= self.size_y,
                    i < matrix.size_y,
                    j <= matrix.size_x,
                    self.cells() == paste(
                        before,
                        point.0 as int,
                        point.1 as int,
                        mc.take(i as int).push(mc[i as int].take(j as int)),
                    ),
                decreases matrix.size_x - j,
            {
                let v = matrix.get((j, i));
                self.put((j + point.0, i + point.1), v);
                assert(self.cells() =~~= paste(
                    before,
                    point.0 as int,
                    point.1 as int,
                    mc.take(i as int).push(mc[i as int].take(j + 1)),
                ));
                j = j + 1;
            }
            assert(mc[i as int].take(matrix.size_x as int) =~= mc[i as int]);
            assert(mc.take(i as int).push(mc[i as int]) =~= mc.take(i + 1));
            i = i + 1;
        }
        assert(mc.take(matrix.size_y as int) =~= mc);
    }

    /// Turns the matrix a quarter turn clockwise: size_x and size_y trade places, and
    /// the new row y, column x holds the old cell of row size_y - 1 - x, column y.
    #[verifier::rlimit(50)]
    pub fn rotate(&mut self)
        requires
            old(self).wf(),
            old(self).size_x >= 1,
            old(self).size_y >= 1,
        ensures
            final(self).wf(),
            final(self).size_x == old(self).size_y,
            final(self).size_y == old(self).size_x,
            forall|y: int, x: int|
                0 <= y < old(self).size_x && 0 <= x < old(self).size_y ==> #[trigger] final(self).cells()[y][x]
                    == old(self).cells()[old(self).size_y - 1 - x][y],
    {
        let w = self.size_x;
        let h = self.size_y;
        let first = self.get((0, 0));
        let mut new_matrix: Matrix<T> = Matrix::create(h, w, &first);
        let mut y: u32 = 0;
        while y < w
            invariant
                self.wf(),
                new_matrix.wf(),
                self.size_x == w,
                self.size_y == h,
                new_matrix.size_x == h,
                new_matrix.size_y == w,
                y <= w,
                forall|r: int, c: int|
                    0 <= r < y && 0 <= c < h ==> #[trigger] new_matrix.cells()[r][c] == self.cells()[h - 1 - c][r],
            decreases w - y,
        {
            let mut x: u32 = 0;
            while x < h
                invariant
                    self.wf(),
                    new_matrix.wf(),
                    self.size_x == w,
                    self.size_y == h,
                    new_matrix.size_x == h,
                    new_matrix.size_y == w,
                    y < w,
                    x <= h,
                    forall|r: int, c: int|
                        (0 <= r < y && 0 <= c < h) || (r == y && 0 <= c < x) ==> #[trigger] new_matrix.cells()[r][c]
                            == self.cells()[h - 1 - c][r],
                decreases h - x,
            {
                let v = self.get((y, h - 1 - x));
                new_matrix.put((x, y), v);
                x = x + 1;
            }
            y = y + 1;
        }
        *self = new_matrix;
    }
}


/// A cell of a symbol under construction.
#[derive(Clone, Copy, Debug, PartialEq, Eq, Structural)]
pub enum Module {
    Dark,
    Light,
    Unset,
}

pub type Grid = Seq<Seq<Module>>;

/// The cell for a bit: 1 is dark, 0 is light.
pub open spec fn module_of(bit: u8) -> Module {
    if bit == 1 {
        Module::Dark
    } else {
        Module::Light
    }
}

fn module_of_exec(bit: u8) -> (r: Module)
    ensures
        r == module_of(bit),
{
    if bit == 1 {
        Module::Dark
    } else {
        Module::Light
    }
}

/// The top-left finder block: a dark 7x7 ring around a light ring around a dark 3x3
/// core, with a light separator on its right column and bottom row.
pub open spec fn finder_cell(y: int, x: int) -> Module {
    if y == 7 || x == 7 {
        Module::Light
    } else if 2 <= y <= 4 && 2 <= x <= 4 {
        Module::Dark
    } else if 1 <= y <= 5 && 1 <= x <= 5 {
        Module::Light
    } else {
        Module::Dark
    }
}

pub open spec fn finder_grid() -> Grid {
    Seq::new(8, |y: int| Seq::new(8, |x: int| finder_cell(y, x)))
}

/// g turned a quarter turn clockwise (g square of side n).
pub open spec fn rotated(g: Grid, n: int) -> Grid {
    Seq::new(n as nat, |y: int| Seq::new(n as nat, |x: int| g[n - 1 - x][y]))
}

/// Finder blocks at the top-left, top-right (turned once) and bottom-left (turned
/// three times) corners.
pub open spec fn finder_step(g: Grid, size: int) -> Grid {
    let f = finder_grid();
    let f1 = rotated(f, 8);
    let f3 = rotated(rotated(f1, 8), 8);
    paste(paste(paste(g, 0, 0, f), size - 8, 0, f1), 0, size - 8, f3)
}

/// The 5x5 alignment block: dark border, light ring, dark centre.
pub open spec fn align_grid() -> Grid {
    Seq::new(
        5,
        |y: int|
            Seq::new(
                5,
                |x: int|
                    if 1 <= y <= 3 && 1 <= x <= 3 && !(y == 2 && x == 2) {
                        Module::Light
                    } else {
                        Module::Dark
                    },
            ),
    )
}

/// Alignment blocks for pairs (pos[a], pos[b]) with b < m, centred at column pos[a] and row
/// pos[b], each placed only when its centre is still unset.
pub open spec fn align_row(g: Grid, pos: Seq<u32>, a: int, m: int) -> Grid
    decreases m,
{
    if m <= 0 {
        g
    } else {
        let h = align_row(g, pos, a, m - 1);
        let x = pos[a] as int;
        let y = pos[m - 1] as int;
        if h[y][x] == Module::Unset {
            paste(h, x - 2, y - 2, align_grid())
        } else {
            h
        }
    }
}

/// Alignment blocks for the pairs whose column index is below k.
pub open spec fn align_all(g: Grid, pos: Seq<u32>, k: int) -> Grid
    decreases k,
{
    if k <= 0 {
        g
    } else {
        align_row(align_all(g, pos, k - 1), pos, k - 1, pos.len() as int)
    }
}

/// Timing cell k: dark at even k.
pub open spec fn timing_module(k: int) -> Module {
    if k % 2 == 0 {
        Module::Dark
    } else {
        Module::Light
    }
}

pub open spec fn timing_seq(size: int) -> Seq<Module> {
    Seq::new((size - 14) as nat, |k: int| timing_module(k))
}

/// Timing patterns along row 6 and column 6 from (6, 6) on.
pub open spec fn timing_step(g: Grid, size: int) -> Grid {
    let t = timing_seq(size);
    paste(paste(g, 6, 6, seq![t]), 6, 6, Seq::new(t.len(), |i: int| seq![t[i]]))
}

/// Which of the 15 format bits (most significant first) the cell (x, y) holds, or -1.
pub open spec fn format_index(x: int, y: int, size: int) -> int {
    if y == 8 && 0 <= x <= 5 {
        x
    } else if y == 8 && x == 7 {
        6
    } else if y == 8 && x == 8 {
        7
    } else if x == 8 && y == 7 {
        8
    } else if x == 8 && 0 <= y <= 5 {
        14 - y
    } else if y == 8 && size - 8 <= x < size {
        7 + x - (size - 8)
    } else if x == 8 && size - 7 <= y < size {
        6 - (y - (size - 7))
    } else {
        -1
    }
}

/// Both copies of the format bits: one around the top-left finder, the other split
/// between the top-right and bottom-left finders.
pub open spec fn format_step(g: Grid, size: int, f: Seq<u8>) -> Grid {
    Seq::new(
        g.len(),
        |y: int|
            Seq::new(
                g[y].len(),
                |x: int|
                    if format_index(x, y, size) >= 0 {
                        module_of(f[format_index(x, y, size)])
                    } else {
                        g[y][x]
                    },
            ),
    )
}

/// Which of the 18 version bits (most significant first) the cell (x, y) holds, or -1.
pub open spec fn version_index(x: int, y: int, size: int) -> int {
    if 0 <= y < 6 && size - 11 <= x < size - 8 {
        17 - 3 * y - (x - (size - 11))
    } else if 0 <= x < 6 && size - 11 <= y < size - 8 {
        17 - 3 * x - (y - (size - 11))
    } else {
        -1
    }
}

/// The two 3x6 version blocks, beside the top-right and bottom-left finders.
pub open spec fn version_step(g: Grid, size: int, v: Seq<u8>) -> Grid {
    Seq::new(
        g.len(),
        |y: int|
            Seq::new(
                g[y].len(),
                |x: int|
                    if version_index(x, y, size) >= 0 {
                        module_of(v[version_index(x, y, size)])
                    } else {
                        g[y][x]
                    },
            ),
    )
}

/// All function patterns of a symbol, in the order in which they are laid down.
pub open spec fn patterns_step(g: Grid, size: int, version: int, level: ErrorLevel, mask: Mask) -> Grid {
    let g1 = set_cell(finder_step(g, size), 8, size - 8, Module::Dark);
    let g2 = if version >= 2 {
        align_all(g1, alignment_positions(version), alignment_positions(version).len() as int)
    } else {
        g1
    };
    let g3 = format_step(timing_step(g2, size), size, bits_of(format_value(level, mask) as nat, 15));
    if version >= 7 {
        version_step(g3, size, bits_of(version_value(version) as nat, 18))
    } else {
        g3
    }
}


/// Cell t of a column-pair strip whose left column lies col columns left of the
/// second-to-last. With swap 1 the strip visits the right column (size - 1 - col) then the
/// left one on each row, row t / 2; with swap 0 it starts on the left column of the first
/// row and then takes (right, left) pairs, row (t + 1) / 2. Rows count from the bottom
/// going up and from the top going down.
pub open spec fn strip_pos(size: int, up: bool, col: int, swap: int, t: int) -> (int, int) {
    let x = if swap == 1 {
        size - 1 - col - t % 2
    } else {
        size - 2 - col + t % 2
    };
    let r = if swap == 1 {
        t / 2
    } else {
        (t + 1) / 2
    };
    let y = if up {
        size - 1 - r
    } else {
        r
    };
    (x, y)
}

pub open spec fn strip_len(size: int, swap: int) -> int {
    2 * size - 1 + swap
}

pub open spec fn strip_positions(size: int, up: bool, col: int, swap: int) -> Seq<(int, int)> {
    Seq::new(strip_len(size, swap) as nat, |t: int| strip_pos(size, up, col, swap, t))
}

/// Visits positions in order; at each still unset cell the last remaining bit is taken,
/// masked and written. Returns the grid and the bits left.
pub open spec fn fill(g: Grid, pos: Seq<(int, int)>, bits: Seq<u8>, mask: Mask) -> (Grid, Seq<u8>)
    decreases pos.len(),
{
    if pos.len() == 0 {
        (g, bits)
    } else {
        let x = pos[0].0;
        let y = pos[0].1;
        if g[y][x] == Module::Unset && bits.len() > 0 {
            fill(
                set_cell(g, x, y, module_of(masked_bit(mask, x, y, bits.last()))),
                pos.drop_first(),
                bits.drop_last(),
                mask,
            )
        } else {
            fill(g, pos.drop_first(), bits, mask)
        }
    }
}

/// Left offset of data strip i: two columns per strip, one more once the vertical
/// timing column is passed.
pub open spec fn strip_col(size: int, i: int) -> int {
    if 2 * i < size - 7 {
        2 * i
    } else {
        2 * i + 1
    }
}

/// The positions of the first i data strips, right to left, the first going up.
pub open spec fn zigzag(size: int, i: int) -> Seq<(int, int)>
    decreases i,
{
    if i <= 0 {
        seq![]
    } else {
        zigzag(size, i - 1) + strip_positions(size, (i - 1) % 2 == 0, strip_col(size, i - 1), 1)
    }
}

pub open spec fn reversed(s: Seq<u8>) -> Seq<u8> {
    Seq::new(s.len(), |i: int| s[s.len() - 1 - i])
}

/// The cells of a finished symbol: function patterns, then data, then the margin.
pub open spec fn symbol_cells(g: Grid, size: int, version: int, level: ErrorLevel, mask: Mask, bits: Seq<u8>) -> Grid {
    let p = patterns_step(g, size, version, level, mask);
    let d = fill(p, zigzag(size, size / 2), reversed(bits), mask).0;
    paste(filled(size + 2 * MARGIN, size + 2 * MARGIN, Module::Light), MARGIN as int, MARGIN as int, d)
}

proof fn lemma_fill_concat(g: Grid, front: Seq<(int, int)>, back: Seq<(int, int)>, bits: Seq<u8>, mask: Mask)
    ensures
        fill(g, front + back, bits, mask) == fill(fill(g, front, bits, mask).0, back, fill(g, front, bits, mask).1, mask),
    decreases front.len(),
{
    if front.len() == 0 {
        assert(front + back =~= back);
    } else {
        assert((front + back).drop_first() =~= front.drop_first() + back);
        let x = front[0].0;
        let y = front[0].1;
        if g[y][x] == Module::Unset && bits.len() > 0 {
            lemma_fill_concat(
                set_cell(g, x, y, module_of(masked_bit(mask, x, y, bits.last()))),
                front.drop_first(),
                back,
                bits.drop_last(),
                mask,
            );
        } else {
            lemma_fill_concat(g, front.drop_first(), back, bits, mask);
        }
    }
}

fn format_index_exec(x: u32, y: u32, size: u32) -> (r: i32)
    requires
        21 <= size <= 177,
        x < size,
        y < size,
    ensures
        r == format_index(x as int, y as int, size as int),
{
    if y == 8 && x <= 5 {
        x as i32
    } else if y == 8 && x == 7 {
        6
    } else if y == 8 && x == 8 {
        7
    } else if x == 8 && y == 7 {
        8
    } else if x == 8 && y <= 5 {
        14 - y as i32
    } else if y == 8 && size - 8 <= x {
        7 + x as i32 - (size as i32 - 8)
    } else if x == 8 && size - 7 <= y {
        6 - (y as i32 - (size as i32 - 7))
    } else {
        -1
    }
}

fn version_index_exec(x: u32, y: u32, size: u32) -> (r: i32)
    requires
        21 <= size <= 177,
        x < size,
        y < size,
    ensures
        r == version_index(x as int, y as int, size as int),
{
    if y < 6 && size - 11 <= x && x < size - 8 {
        17 - 3 * y as i32 - (x as i32 - (size as i32 - 11))
    } else if x < 6 && size - 11 <= y && y < size - 8 {
        17 - 3 * x as i32 - (y as i32 - (size as i32 - 11))
    } else {
        -1
    }
}

/// The bit index of cell (x, y) for the version blocks (kind true) or the format copies.
pub open spec fn cell_index(version_kind: bool, x: int, y: int, size: int) -> int {
    if version_kind {
        version_index(x, y, size)
    } else {
        format_index(x, y, size)
    }
}

/// g0 with the indexed cells written for the rows before y0 and the cells before x0 of row y0.
pub open spec fn indexed_partial(g0: Grid, bits: Seq<u8>, version_kind: bool, size: int, y0: int, x0: int) -> Grid {
    Seq::new(
        size as nat,
        |y: int|
            Seq::new(
                size as nat,
                |x: int|
                    if (y < y0 || (y == y0 && x < x0)) && cell_index(version_kind, x, y, size) >= 0 {
                        module_of(bits[cell_index(version_kind, x, y, size)])
                    } else {
                        g0[y][x]
                    },
            ),
    )
}

/// A symbol: its encoded message and its module matrix.
pub struct QRcode {
    pub rs: ReedSolomonData,
    pub size: u8,
    pub qrcode: Matrix<Module>,
}

impl QRcode {
    /// The matrix is size x size, size fitting the version.
    pub open spec fn shaped(&self) -> bool {
        &&& self.qrcode.wf()
        &&& 1 <= self.rs.version <= 40
        &&& self.size == 21 + 4 * (self.rs.version - 1)
        &&& self.qrcode.size_x == self.size
        &&& self.qrcode.size_y == self.size
    }

    /// Encodes the data in byte mode at the requested version and level or above, with
    /// an empty (all unset) matrix of the chosen size.
    pub fn new(data: &str, version: u8, error_correct: ErrorLevel, mask: Mask) -> (r: Result<QRcode, QrError>)
        requires
            1 <= version <= 40,
        ensures
            match crate::reed_solomon::selection(
                data.spec_bytes().len() as int,
                ByteNameOfMode::Byte,
                error_correct,
                version as int,
            ) {
                Some((l, v)) => if crate::reed_solomon::head_fits(data.spec_bytes(), ByteNameOfMode::Byte, v, l) {
                    r matches Ok(q) && q.shaped() && q.rs.wf() && q.rs.version == v && q.rs.error_level == l
                        && q.rs.data@ == data.spec_bytes() && q.rs.mask == mask && q.rs.mode
                        == ByteNameOfMode::Byte && q.qrcode.cells() == filled(
                        q.size as int,
                        q.size as int,
                        Module::Unset,
                    )
                } else {
                    r == Err::<QRcode, QrError>(QrError::CapacityExceeded)
                },
                None => r == Err::<QRcode, QrError>(QrError::CapacityExceeded),
            },
    {
        let reed_solomon = match ReedSolomonData::new(data, error_correct, version, mask, ByteNameOfMode::Byte) {
            Ok(rs) => rs,
            Err(e) => {
                return Err(e);
            },
        };
        let size: u8 = 21 + (reed_solomon.version - 1) * 4;
        let qrcode = Matrix::<Module>::create(size as u32, size as u32, &Module::Unset);
        Ok(QRcode { rs: reed_solomon, size, qrcode })
    }

    /// Frames the matrix with a light border MARGIN cells wide.
    fn margin(&mut self)
        requires
            old(self).shaped(),
        ensures
            final(self).rs == old(self).rs,
            final(self).size == old(self).size,
            final(self).qrcode.wf(),
            final(self).qrcode.cells() == paste(
                filled(old(self).size + 2 * MARGIN, old(self).size + 2 * MARGIN, Module::Light),
                MARGIN as int,
                MARGIN as int,
                old(self).qrcode.cells(),
            ),
    {
        let size = self.size as u32 + 2 * MARGIN;
        let mut margin: Matrix<Module> = Matrix::create(size, size, &Module::Light);
        margin.put_matrix((MARGIN, MARGIN), &self.qrcode);
        self.qrcode = margin;
    }

    /// Lays down the patterns, places the data, and adds the margin.
    pub fn render(&mut self)
        requires
            old(self).shaped(),
            old(self).rs.wf(),
        ensures
            final(self).rs == old(self).rs,
            final(self).qrcode.wf(),
            final(self).qrcode.cells() == symbol_cells(
                old(self).qrcode.cells(),
                old(self).size as int,
                old(self).rs.version as int,
                old(self).rs.error_level,
                old(self).rs.mask,
                old(self).rs.bits@,
            ),
    {
        proof {
            crate::reed_solomon::lemma_symbol_bits_bits(
                self.rs.data@,
                self.rs.mode,
                self.rs.version as int,
                self.rs.error_level,
            );
        }
        self.set_patterns();
        self.insert_data();
        self.margin();
    }

    /// Lays down every function pattern (see `patterns_step`).
    pub fn set_patterns(&mut self)
        requires
            old(self).shaped(),
        ensures
            final(self).shaped(),
            final(self).rs == old(self).rs,
            final(self).size == old(self).size,
            final(self).qrcode.cells() == patterns_step(
                old(self).qrcode.cells(),
                old(self).size as int,
                old(self).rs.version as int,
                old(self).rs.error_level,
                old(self).rs.mask,
            ),
    {
        self.create_finder();
        self.black_module();
        if self.rs.version >= 2 {
            self.create_align();
        }
        self.create_timing();
        self.create_format_string();
        if self.rs.version >= 7 {
            self.create_version_string();
        }
    }

    /// The dark module beside the bottom-left finder, at column 8.
    pub fn black_module(&mut self)
        requires
            old(self).shaped(),
        ensures
            final(self).shaped(),
            final(self).rs == old(self).rs,
            final(self).size == old(self).size,
            final(self).qrcode.cells() == set_cell(
                old(self).qrcode.cells(),
                8,
                old(self).size - 8,
                Module::Dark,
            ),
    {
        let y = self.qrcode.size_y - 8;
        self.qrcode.put((8, y), Module::Dark);
    }

    /// The three finder blocks (see `finder_step`).
    #[verifier::rlimit(50)]
    pub fn create_finder(&mut self)
        requires
            old(self).shaped(),
        ensures
            final(self).shaped(),
            final(self).rs == old(self).rs,
            final(self).size == old(self).size,
            final(self).qrcode.cells() == finder_step(old(self).qrcode.cells(), old(self).size as int),
    {
        let mut finder: Matrix<Module> = Matrix::create(8, 8, &Module::Dark);
        let white_finder: Matrix<Module> = Matrix::create(5, 5, &Module::Light);
        let black_finder: Matrix<Module> = Matrix::create(3, 3, &Module::Dark);
        finder.put_matrix((1, 1), &white_finder);
        finder.put_matrix((2, 2), &black_finder);
        let mut separator: Vec<Module> = Vec::new();
        let mut k: usize = 0;
        while k < 8
            invariant
                k <= 8,
                separator@ == Seq::new(k as nat, |i: int| Module::Light),
            decreases 8 - k,
        {
            separator.push(Module::Light);
            assert(separator@ =~= Seq::new((k + 1) as nat, |i: int| Module::Light));
            k = k + 1;
        }
        finder.put_vec((7, 0), &separator, false);
        finder.put_vec((0, 7), &separator, true);
        let ghost f = finder_grid();
        assert(finder.cells() =~~= f);
        let size = self.size as u32;
        self.qrcode.put_matrix((0, 0), &finder);
        finder.rotate();
        let ghost f1 = rotated(f, 8);
        assert(finder.cells() =~~= f1);
        self.qrcode.put_matrix((size - 8, 0), &finder);
        finder.rotate();
        assert(finder.cells() =~~= rotated(f1, 8));
        finder.rotate();
        assert(finder.cells() =~~= rotated(rotated(f1, 8), 8));
        self.qrcode.put_matrix((0, size - 8), &finder);
    }

    /// Alignment blocks at every pair of alignment coordinates whose centre is still
    /// unset (see `align_all`).
    #[verifier::rlimit(50)]
    pub fn create_align(&mut self)
        requires
            old(self).shaped(),
            old(self).rs.version >= 2,
        ensures
            final(self).shaped(),
            final(self).rs == old(self).rs,
            final(self).size == old(self).size,
            final(self).qrcode.cells() == align_all(
                old(self).qrcode.cells(),
                alignment_positions(old(self).rs.version as int),
                alignment_positions(old(self).rs.version as int).len() as int,
            ),
    {
        let align = get_alignment(self.rs.version);
        let ghost pos = align@;
        proof {
            crate::utils::lemma_alignment_facts(self.rs.version as int);
        }
        let size = self.size as u32;
        assert forall|i: int| 0 <= i < pos.len() implies 6 <= #[trigger] pos[i] && pos[i] + 7 <= size by {
            if i > 0 {
                let v = self.rs.version as int;
                let c = crate::utils::alignment_count(v);
                let d = crate::utils::alignment_step(v);
                assert((c - i) * d <= (c - 1) * d) by (nonlinear_arith)
                    requires
                        1 <= i <= c,
                        d >= 0,
                ;
            }
        }
        let mut align_matrix: Matrix<Module> = Matrix::create(5, 5, &Module::Dark);
        let mut border: Matrix<Module> = Matrix::create(3, 3, &Module::Light);
        border.put((1, 1), Module::Dark);
        align_matrix.put_matrix((1, 1), &border);
        assert(align_matrix.cells() =~~= align_grid());
        let ghost g0 = self.qrcode.cells();
        let n = align.len();
        let mut a: usize = 0;
        while a < n
            invariant
                self.shaped(),
                self.rs == old(self).rs,
                self.size == old(self).size,
                size == self.size,
                n == pos.len(),
                pos == align@,
                pos == alignment_positions(self.rs.version as int),
                g0 == old(self).qrcode.cells(),
                align_matrix.wf(),
                align_matrix.size_x == 5,
                align_matrix.size_y == 5,
                align_matrix.cells() == align_grid(),
                forall|i: int| 0 <= i < pos.len() ==> 6 <= #[trigger] pos[i] && pos[i] + 7 <= size,
                a <= n,
                self.qrcode.cells() == align_all(g0, pos, a as int),
            decreases n - a,
        {
            let mut b: usize = 0;
            while b < n
                invariant
                    self.shaped(),
                    self.rs == old(self).rs,
                    self.size == old(self).size,
                    size == self.size,
                    n == pos.len(),
                    pos == align@,
                    align_matrix.wf(),
                    align_matrix.size_x == 5,
                    align_matrix.size_y == 5,
                    align_matrix.cells() == align_grid(),
                    forall|i: int| 0 <= i < pos.len() ==> 6 <= #[trigger] pos[i] && pos[i] + 7 <= size,
                    a < n,
                    b <= n,
                    self.qrcode.cells() == align_row(align_all(g0, pos, a as int), pos, a as int, b as int),
                decreases n - b,
            {
                let x = align[a];
                let y = align[b];
                if self.qrcode.get((x, y)) == Module::Unset {
                    self.qrcode.put_matrix((x - 2, y - 2), &align_matrix);
                }
                b = b + 1;
            }
            a = a + 1;
        }
    }

    /// Timing patterns along row 6 and column 6 (see `timing_step`).
    pub fn create_timing(&mut self)
        requires
            old(self).shaped(),
        ensures
            final(self).shaped(),
            final(self).rs == old(self).rs,
            final(self).size == old(self).size,
            final(self).qrcode.cells() == timing_step(old(self).qrcode.cells(), old(self).size as int),
    {
        let len = self.size as usize - 14;
        let mut timing: Vec<Module> = Vec::new();
        let mut k: usize = 0;
        while k < len
            invariant
                k <= len,
                len == old(self).size - 14,
                timing@ == timing_seq(old(self).size as int).take(k as int),
            decreases len - k,
        {
            timing.push(if k % 2 == 0 {
                Module::Dark
            } else {
                Module::Light
            });
            assert(timing@ =~= timing_seq(old(self).size as int).take(k + 1));
            k = k + 1;
        }
        assert(timing@ =~= timing_seq(old(self).size as int));
        self.qrcode.put_vec((6, 6), &timing, true);
        self.qrcode.put_vec((6, 6), &timing, false);
    }

    /// Writes bits into the cells that `format_index` (kind false) or `version_index`
    /// (kind true) assigns to them.
    #[verifier::rlimit(50)]
    fn write_indexed(&mut self, bits: &Vec<u8>, version_kind: bool)
        requires
            old(self).shaped(),
            bits.len() == if version_kind {
                18int
            } else {
                15int
            },
        ensures
            final(self).shaped(),
            final(self).rs == old(self).rs,
            final(self).size == old(self).size,
            final(self).qrcode.cells() == if version_kind {
                version_step(old(self).qrcode.cells(), old(self).size as int, bits@)
            } else {
                format_step(old(self).qrcode.cells(), old(self).size as int, bits@)
            },
    {
        let size = self.size as u32;
        let ghost g0 = self.qrcode.cells();
        assert(self.qrcode.cells() =~~= indexed_partial(g0, bits@, version_kind, size as int, 0, 0));
        let mut y: u32 = 0;
        while y < size
            invariant
                self.shaped(),
                self.rs == old(self).rs,
                self.size == old(self).size,
                size == self.size,
                g0 == old(self).qrcode.cells(),
                bits.len() == if version_kind {
                    18int
                } else {
                    15int
                },
                y <= size,
                self.qrcode.cells() == indexed_partial(g0, bits@, version_kind, size as int, y as int, 0),
            decreases size - y,
        {
            let mut x: u32 = 0;
            while x < size
                invariant
                    self.shaped(),
                    self.rs == old(self).rs,
                    self.size == old(self).size,
                    size == self.size,
                    bits.len() == if version_kind {
                        18int
                    } else {
                        15int
                    },
                    y < size,
                    x <= size,
                    self.qrcode.cells() == indexed_partial(g0, bits@, version_kind, size as int, y as int, x as int),
                decreases size - x,
            {
                let idx = if version_kind {
                    version_index_exec(x, y, size)
                } else {
                    format_index_exec(x, y, size)
                };
                assert(idx == cell_index(version_kind, x as int, y as int, size as int));
                if idx >= 0 {
                    let m = module_of_exec(bits[idx as usize]);
                    self.qrcode.put((x, y), m);
                }
                assert(self.qrcode.cells() =~~= indexed_partial(g0, bits@, version_kind, size as int, y as int, x + 1));
                x = x + 1;
            }
            assert(indexed_partial(g0, bits@, version_kind, size as int, y as int, size as int) =~~= indexed_partial(g0, bits@, version_kind, size as int, y + 1, 0));
            y = y + 1;
        }
        assert(indexed_partial(g0, bits@, version_kind, size as int, size as int, 0) =~~= if version_kind {
            version_step(g0, size as int, bits@)
        } else {
            format_step(g0, size as int, bits@)
        });
    }

    /// Both copies of the format information (see `format_step`).
    pub fn create_format_string(&mut self)
        requires
            old(self).shaped(),
        ensures
            final(self).shaped(),
            final(self).rs == old(self).rs,
            final(self).size == old(self).size,
            final(self).qrcode.cells() == format_step(
                old(self).qrcode.cells(),
                old(self).size as int,
                bits_of(format_value(old(self).rs.error_level, old(self).rs.mask) as nat, 15),
            ),
    {
        let format = self.rs.create_format_string();
        self.write_indexed(&format, false);
    }

    /// Both copies of the version information (see `version_step`).
    pub fn create_version_string(&mut self)
        requires
            old(self).shaped(),
        ensures
            final(self).shaped(),
            final(self).rs == old(self).rs,
            final(self).size == old(self).size,
            final(self).qrcode.cells() == version_step(
                old(self).qrcode.cells(),
                old(self).size as int,
                bits_of(version_value(old(self).rs.version as int) as nat, 18),
            ),
    {
        let version = self.rs.create_version_string();
        self.write_indexed(&version, true);
    }

    /// Places bits along one column-pair strip whose left column lies col columns left of
    /// the second-to-last, taking bits from the end of vec (see `fill`).
    #[verifier::rlimit(50)]
    pub fn push_data_strip(&mut self, vec: &mut Vec<u8>, up: bool, point: (u32, u32), swap: u16)
        requires
            old(self).shaped(),
            point.0 + 2 <= old(self).size,
            swap <= 1,
            forall|i: int| 0 <= i < old(vec).len() ==> #[trigger] old(vec)@[i] <= 1,
        ensures
            final(self).shaped(),
            final(self).rs == old(self).rs,
            final(self).size == old(self).size,
            (final(self).qrcode.cells(), final(vec)@) == fill(
                old(self).qrcode.cells(),
                strip_positions(old(self).size as int, up, point.0 as int, swap as int),
                old(vec)@,
                old(self).rs.mask,
            ),
            forall|i: int| 0 <= i < final(vec).len() ==> #[trigger] final(vec)@[i] <= 1,
    {
        let size = self.size as u32;
        let ghost pos = strip_positions(size as int, up, point.0 as int, swap as int);
        let ghost target = fill(self.qrcode.cells(), pos, vec@, self.rs.mask);
        let count: u32 = 2 * size - 1 + swap as u32;
        let mut t: u32 = 0;
        assert(pos.skip(0) =~= pos);
        while t < count
            invariant
                self.shaped(),
                self.rs == old(self).rs,
                self.size == old(self).size,
                size == self.size,
                point.0 + 2 <= size,
                swap <= 1,
                count == strip_len(size as int, swap as int),
                t <= count,
                pos == strip_positions(size as int, up, point.0 as int, swap as int),
                target == fill(old(self).qrcode.cells(), pos, old(vec)@, old(self).rs.mask),
                fill(self.qrcode.cells(), pos.skip(t as int), vec@, self.rs.mask) == target,
                forall|i: int| 0 <= i < vec.len() ==> #[trigger] vec@[i] <= 1,
            decreases count - t,
        {
            let idx = swap as u32 + t;
            let r = (t + 1 - swap as u32) / 2;
            let x = size - 2 + idx % 2 - point.0;
            let y = if up {
                size - 1 - r
            } else {
                r
            };
            assert(pos.skip(t as int)[0] == (x as int, y as int));
            assert(pos.skip(t as int).drop_first() =~= pos.skip(t + 1));
            let cell = self.qrcode.get((x, y));
            if cell == Module::Unset && vec.len() > 0 {
                let bit = vec.pop().unwrap();
                let value = apply_mask(self.rs.mask, x as u16, y as u16, bit);
                self.qrcode.put((x, y), module_of_exec(value));
            }
            t = t + 1;
        }
        assert(pos.skip(count as int) =~= Seq::<(int, int)>::empty());
    }

    /// Places the symbol bits strip by strip along the zig-zag path (see `zigzag`).
    #[verifier::rlimit(50)]
    pub fn insert_data(&mut self)
        requires
            old(self).shaped(),
            forall|i: int| 0 <= i < old(self).rs.bits.len() ==> #[trigger] old(self).rs.bits@[i] <= 1,
        ensures
            final(self).shaped(),
            final(self).rs == old(self).rs,
            final(self).size == old(self).size,
            final(self).qrcode.cells() == fill(
                old(self).qrcode.cells(),
                zigzag(old(self).size as int, (old(self).size / 2) as int),
                reversed(old(self).rs.bits@),
                old(self).rs.mask,
            ).0,
    {
        let mut data_set: Vec<u8> = Vec::new();
        let n = self.rs.bits.len();
        let mut k: usize = 0;
        while k < n
            invariant
                n == self.rs.bits.len(),
                k <= n,
                data_set@ == reversed(self.rs.bits@).take(k as int),
            decreases n - k,
        {
            data_set.push(self.rs.bits[n - 1 - k]);
            assert(data_set@ =~= reversed(self.rs.bits@).take(k + 1));
            k = k + 1;
        }
        assert(data_set@ =~= reversed(self.rs.bits@));
        let ghost g0 = self.qrcode.cells();
        let ghost b0 = data_set@;
        let size = self.size as u32;
        let strips = size / 2;
        let mut col: u32 = 0;
        let mut i: u32 = 0;
        while i < strips
            invariant
                self.shaped(),
                self.rs == old(self).rs,
                self.size == old(self).size,
                size == self.size,
                strips == size / 2,
                i <= strips,
                col == strip_col(size as int, i as int),
                g0 == old(self).qrcode.cells(),
                b0 == reversed(old(self).rs.bits@),
                (self.qrcode.cells(), data_set@) == fill(g0, zigzag(size as int, i as int), b0, self.rs.mask),
                forall|q: int| 0 <= q < data_set.len() ==> #[trigger] data_set@[q] <= 1,
            decreases strips - i,
        {
            proof {
                lemma_fill_concat(
                    g0,
                    zigzag(size as int, i as int),
                    strip_positions(size as int, i % 2 == 0, col as int, 1),
                    b0,
                    self.rs.mask,
                );
            }
            self.push_data_strip(&mut data_set, i % 2 == 0, (col, 0), 1);
            col = col + 2;
            if col == size - 7 || col == size - 6 {
                col = col + 1;
            }
            i = i + 1;
        }
    }
}


/// Cell of format bit i (most significant first) in the copy around the top-left finder.
pub open spec fn format_cell_a(i: int) -> (int, int) {
    if i <= 5 {
        (i, 8)
    } else if i == 6 {
        (7, 8)
    } else if i == 7 {
        (8, 8)
    } else if i == 8 {
        (8, 7)
    } else {
        (8, 14 - i)
    }
}

/// Cell of format bit i (most significant first) in the split copy.
pub open spec fn format_cell_b(i: int, size: int) -> (int, int) {
    if i <= 6 {
        (8, size - 1 - i)
    } else {
        (size - 15 + i, 8)
    }
}

pub open spec fn in_grid(g: Grid, x: int, y: int) -> bool {
    0 <= y < g.len() && 0 <= x < g[y].len()
}

pub open spec fn same_shape(a: Grid, b: Grid) -> bool {
    a.len() == b.len() && forall|y: int| 0 <= y < a.len() ==> #[trigger] a[y].len() == b[y].len()
}

proof fn lemma_align_row_shape(g: Grid, pos: Seq<u32>, a: int, m: int)
    ensures
        same_shape(align_row(g, pos, a, m), g),
    decreases m,
{
    if m > 0 {
        lemma_align_row_shape(g, pos, a, m - 1);
    }
}

proof fn lemma_align_all_shape(g: Grid, pos: Seq<u32>, k: int)
    ensures
        same_shape(align_all(g, pos, k), g),
    decreases k,
{
    if k > 0 {
        lemma_align_all_shape(g, pos, k - 1);
        lemma_align_row_shape(align_all(g, pos, k - 1), pos, k - 1, pos.len() as int);
    }
}

/// Data placement changes only cells that were unset, and keeps the shape.
proof fn lemma_fill_keeps(g: Grid, pos: Seq<(int, int)>, bits: Seq<u8>, mask: Mask, x0: int, y0: int)
    requires
        in_grid(g, x0, y0),
        g[y0][x0] != Module::Unset,
        forall|k: int| 0 <= k < pos.len() ==> in_grid(g, #[trigger] pos[k].0, pos[k].1),
    ensures
        same_shape(fill(g, pos, bits, mask).0, g),
        fill(g, pos, bits, mask).0[y0][x0] == g[y0][x0],
    decreases pos.len(),
{
    if pos.len() > 0 {
        let x = pos[0].0;
        let y = pos[0].1;
        let rest = pos.drop_first();
        if g[y][x] == Module::Unset && bits.len() > 0 {
            let h = set_cell(g, x, y, module_of(masked_bit(mask, x, y, bits.last())));
            assert forall|k: int| 0 <= k < rest.len() implies in_grid(h, #[trigger] rest[k].0, rest[k].1) by {
                assert(rest[k] == pos[k + 1]);
            }
            lemma_fill_keeps(h, rest, bits.drop_last(), mask, x0, y0);
        } else {
            assert forall|k: int| 0 <= k < rest.len() implies in_grid(g, #[trigger] rest[k].0, rest[k].1) by {
                assert(rest[k] == pos[k + 1]);
            }
            lemma_fill_keeps(g, rest, bits, mask, x0, y0);
        }
    }
}

/// Every cell of the zig-zag path lies in the symbol.
proof fn lemma_zigzag_in_range(size: int, i: int)
    requires
        size >= 21,
        size % 2 == 1,
        0 <= i <= size / 2,
    ensures
        forall|k: int|
            0 <= k < zigzag(size, i).len() ==> 0 <= #[trigger] zigzag(size, i)[k].0 < size && 0
                <= zigzag(size, i)[k].1 < size,
    decreases i,
{
    if i > 0 {
        lemma_zigzag_in_range(size, i - 1);
        let a = zigzag(size, i - 1);
        let s = strip_positions(size, (i - 1) % 2 == 0, strip_col(size, i - 1), 1);
        assert(strip_col(size, i - 1) + 2 <= size);
        assert forall|k: int| 0 <= k < (a + s).len() implies 0 <= #[trigger] (a + s)[k].0 < size && 0 <= (a
            + s)[k].1 < size by {
            if k >= a.len() {
                assert((a + s)[k] == s[k - a.len()]);
            }
        }
    }
}

/// The two copies of the format information in a finished symbol agree: bit i of the
/// format string stands in both of its cells (shifted by the margin).
#[verifier::rlimit(50)]
pub proof fn lemma_format_copies_agree(
    g: Grid,
    version: int,
    level: ErrorLevel,
    mask: Mask,
    bits: Seq<u8>,
    i: int,
)
    requires
        1 <= version <= 40,
        grid_wf(g, 21 + 4 * (version - 1), 21 + 4 * (version - 1)),
        0 <= i < 15,
    ensures
        ({
            let size = 21 + 4 * (version - 1);
            let s = symbol_cells(g, size, version, level, mask, bits);
            let f = bits_of(format_value(level, mask) as nat, 15);
            let a = format_cell_a(i);
            let b = format_cell_b(i, size);
            &&& s[MARGIN + a.1][MARGIN + a.0] == module_of(f[i])
            &&& s[MARGIN + b.1][MARGIN + b.0] == module_of(f[i])
        }),
{
    let size = 21 + 4 * (version - 1);
    let f = bits_of(format_value(level, mask) as nat, 15);
    let g1 = set_cell(finder_step(g, size), 8, size - 8, Module::Dark);
    let pos = alignment_positions(version);
    let g2 = if version >= 2 {
        align_all(g1, pos, pos.len() as int)
    } else {
        g1
    };
    lemma_align_all_shape(g1, pos, pos.len() as int);
    assert(same_shape(g1, g));
    assert(same_shape(g2, g));
    let t = timing_step(g2, size);
    assert(same_shape(t, g));
    let g3 = format_step(t, size, f);
    let p = patterns_step(g, size, version, level, mask);
    assert(same_shape(p, g));
    let a = format_cell_a(i);
    let b = format_cell_b(i, size);
    assert(format_index(a.0, a.1, size) == i);
    assert(format_index(b.0, b.1, size) == i);
    assert(g3[a.1][a.0] == module_of(f[i]));
    assert(g3[b.1][b.0] == module_of(f[i]));
    assert(p[a.1][a.0] == module_of(f[i]));
    assert(p[b.1][b.0] == module_of(f[i]));
    let zz = zigzag(size, size / 2);
    lemma_zigzag_in_range(size, size / 2);
    let rb = reversed(bits);
    lemma_fill_keeps(p, zz, rb, mask, a.0, a.1);
    lemma_fill_keeps(p, zz, rb, mask, b.0, b.1);
    let d = fill(p, zz, rb, mask).0;
    let s = symbol_cells(g, size, version, level, mask, bits);
    assert(s[MARGIN + a.1][MARGIN + a.0] == d[a.1][a.0]);
    assert(s[MARGIN + b.1][MARGIN + b.0] == d[b.1][b.0]);
}


/// The three finder corners hold the finder block and its turns.
pub open spec fn corners_ok(g: Grid, size: int) -> bool {
    let f1 = rotated(finder_grid(), 8);
    let f3 = rotated(rotated(f1, 8), 8);
    forall|y: int, x: int|
        #![trigger g[y][x]]
        0 <= y < 8 && 0 <= x < 8 ==> g[y][x] == finder_cell(y, x) && g[y][size - 8 + x] == f1[y][x] && g[size
            - 8 + y][x] == f3[y][x]
}

/// Cell (x, y) lies in one of the three finder corners.
pub open spec fn in_corner(x: int, y: int, size: int) -> bool {
    (0 <= x < 8 && 0 <= y < 8) || (size - 8 <= x < size && 0 <= y < 8) || (0 <= x < 8 && size - 8 <= y < size)
}

/// An alignment coordinate: 6, size - 7, or clear of the finders.
pub open spec fn align_coord_ok(p: int, size: int) -> bool {
    p == 6 || p == size - 7 || (10 <= p <= size - 11)
}

proof fn lemma_corner_cells_set(g: Grid, size: int, x: int, y: int)
    requires
        corners_ok(g, size),
        size >= 21,
        in_corner(x, y, size),
    ensures
        g[y][x] != Module::Unset,
{
    let f1 = rotated(finder_grid(), 8);
    let f3 = rotated(rotated(f1, 8), 8);
    if 0 <= x < 8 && 0 <= y < 8 {
        assert(g[y][x] == finder_cell(y, x));
    } else if size - 8 <= x < size && 0 <= y < 8 {
        let xx = x - (size - 8);
        assert(g[y][xx] == finder_cell(y, xx));
        assert(g[y][size - 8 + xx] == f1[y][xx]);
    } else {
        let yy = y - (size - 8);
        assert(g[yy][x] == finder_cell(yy, x));
        assert(g[size - 8 + yy][x] == f3[yy][x]);
    }
}

proof fn lemma_align_row_corners(g: Grid, pos: Seq<u32>, a: int, m: int, size: int)
    requires
        size >= 21,
        grid_wf(g, size, size),
        corners_ok(g, size),
        0 <= a < pos.len(),
        m <= pos.len(),
        forall|i: int| 0 <= i < pos.len() ==> align_coord_ok(#[trigger] pos[i] as int, size),
    ensures
        corners_ok(align_row(g, pos, a, m), size),
        same_shape(align_row(g, pos, a, m), g),
    decreases m,
{
    if m > 0 {
        lemma_align_row_corners(g, pos, a, m - 1, size);
        lemma_align_row_shape(g, pos, a, m - 1);
        let h = align_row(g, pos, a, m - 1);
        let x = pos[a] as int;
        let y = pos[m - 1] as int;
        assert(align_coord_ok(x, size));
        assert(align_coord_ok(y, size));
        if h[y][x] == Module::Unset {
            if in_corner(x, y, size) {
                lemma_corner_cells_set(h, size, x, y);
            }
            let p = paste(h, x - 2, y - 2, align_grid());
            assert(corners_ok(p, size));
        }
    }
}

proof fn lemma_align_all_corners(g: Grid, pos: Seq<u32>, k: int, size: int)
    requires
        size >= 21,
        grid_wf(g, size, size),
        corners_ok(g, size),
        k <= pos.len(),
        forall|i: int| 0 <= i < pos.len() ==> align_coord_ok(#[trigger] pos[i] as int, size),
    ensures
        corners_ok(align_all(g, pos, k), size),
        same_shape(align_all(g, pos, k), g),
    decreases k,
{
    if k > 0 {
        lemma_align_all_corners(g, pos, k - 1, size);
        lemma_align_all_shape(g, pos, k - 1);
        lemma_align_row_corners(align_all(g, pos, k - 1), pos, k - 1, pos.len() as int, size);
        lemma_align_row_shape(align_all(g, pos, k - 1), pos, k - 1, pos.len() as int);
    }
}

/// Every alignment coordinate is 6, size - 7, or clear of the finders.
proof fn lemma_alignment_coords(version: int)
    requires
        2 <= version <= 40,
    ensures
        forall|i: int|
            0 <= i < alignment_positions(version).len() ==> align_coord_ok(
                #[trigger] alignment_positions(version)[i] as int,
                21 + 4 * (version - 1),
            ),
{
    crate::utils::lemma_alignment_facts(version);
    let pos = alignment_positions(version);
    let size = 21 + 4 * (version - 1);
    let c = crate::utils::alignment_count(version);
    let d = crate::utils::alignment_step(version);
    assert forall|i: int| 0 <= i < pos.len() implies align_coord_ok(#[trigger] pos[i] as int, size) by {
        if i == 0 {
            assert(pos[0] == 6);
        } else if i == c {
            assert(pos[i] as int == 4 * version + 10);
        } else {
            let m = (c - i) * d;
            assert(m <= (c - 1) * d && m >= d) by (nonlinear_arith)
                requires
                    1 <= i < c,
                    d >= 0,
                    m == (c - i) * d,
            ;
            assert(pos[i] as int == 4 * version + 10 - m);
        }
    }
}

/// After the function patterns the finder corners hold the finder block, the grid keeps
/// its shape, and column 6 between the finders holds the timing pattern.
proof fn lemma_patterns_cells(g: Grid, version: int, level: ErrorLevel, mask: Mask)
    requires
        1 <= version <= 40,
        grid_wf(g, 21 + 4 * (version - 1), 21 + 4 * (version - 1)),
    ensures
        ({
            let size = 21 + 4 * (version - 1);
            let p = patterns_step(g, size, version, level, mask);
            &&& corners_ok(p, size)
            &&& same_shape(p, g)
            &&& forall|y: int| 6 <= y < size - 8 ==> #[trigger] p[y][6] == timing_module(y - 6)
        }),
{
    let size = 21 + 4 * (version - 1);
    let f1 = rotated(finder_grid(), 8);
    let f3 = rotated(rotated(f1, 8), 8);
    let g0 = finder_step(g, size);
    assert(corners_ok(g0, size));
    assert(grid_wf(g0, size, size));
    let g1 = set_cell(g0, 8, size - 8, Module::Dark);
    assert(corners_ok(g1, size));
    assert(grid_wf(g1, size, size));
    let pos = alignment_positions(version);
    let g2 = if version >= 2 {
        align_all(g1, pos, pos.len() as int)
    } else {
        g1
    };
    if version >= 2 {
        lemma_alignment_coords(version);
        lemma_align_all_corners(g1, pos, pos.len() as int, size);
    }
    assert(corners_ok(g2, size));
    assert(same_shape(g2, g));
    let t = timing_step(g2, size);
    assert forall|yy: int, xx: int| 0 <= yy < 8 && 0 <= xx < 8 implies #[trigger] t[yy][xx] == finder_cell(yy, xx)
        && t[yy][size - 8 + xx] == f1[yy][xx] && t[size - 8 + yy][xx] == f3[yy][xx] by {
        assert(g2[yy][xx] == finder_cell(yy, xx));
        assert(g2[yy][size - 8 + xx] == f1[yy][xx]);
        assert(g2[size - 8 + yy][xx] == f3[yy][xx]);
    }
    assert(corners_ok(t, size));
    let g3 = format_step(t, size, bits_of(format_value(level, mask) as nat, 15));
    assert(corners_ok(g3, size));
    let p = patterns_step(g, size, version, level, mask);
    assert(corners_ok(p, size));
    assert(same_shape(p, g));
    let ts = timing_seq(size);
    assert forall|y: int| 6 <= y < size - 8 implies #[trigger] p[y][6] == timing_module(y - 6) by {
        assert(t[y][6] == ts[y - 6]);
        assert(format_index(6, y, size) == -1);
        assert(version_index(6, y, size) == -1);
        assert(g3[y][6] == t[y][6]);
    }
}

/// In a finished symbol the three finder corners (inside the margin) hold the finder
/// block: as drawn at the top-left, turned a quarter at the top-right, and three
/// quarters at the bottom-left.
#[verifier::rlimit(50)]
pub proof fn lemma_finder_corners(
    g: Grid,
    version: int,
    level: ErrorLevel,
    mask: Mask,
    bits: Seq<u8>,
    y: int,
    x: int,
)
    requires
        1 <= version <= 40,
        grid_wf(g, 21 + 4 * (version - 1), 21 + 4 * (version - 1)),
        0 <= y < 8,
        0 <= x < 8,
    ensures
        ({
            let size = 21 + 4 * (version - 1);
            let s = symbol_cells(g, size, version, level, mask, bits);
            let f1 = rotated(finder_grid(), 8);
            let f3 = rotated(rotated(f1, 8), 8);
            &&& s[MARGIN + y][MARGIN + x] == finder_cell(y, x)
            &&& s[MARGIN + y][MARGIN + size - 8 + x] == f1[y][x]
            &&& s[MARGIN + size - 8 + y][MARGIN + x] == f3[y][x]
        }),
{
    let size = 21 + 4 * (version - 1);
    let f1 = rotated(finder_grid(), 8);
    let f3 = rotated(rotated(f1, 8), 8);
    lemma_patterns_cells(g, version, level, mask);
    let p = patterns_step(g, size, version, level, mask);
    let zz = zigzag(size, size / 2);
    lemma_zigzag_in_range(size, size / 2);
    let rb = reversed(bits);
    assert(p[y][x] == finder_cell(y, x));
    assert(p[y][size - 8 + x] == f1[y][x]);
    assert(p[size - 8 + y][x] == f3[y][x]);
    lemma_corner_cells_set(p, size, x, y);
    lemma_corner_cells_set(p, size, size - 8 + x, y);
    lemma_corner_cells_set(p, size, x, size - 8 + y);
    lemma_fill_keeps(p, zz, rb, mask, x, y);
    lemma_fill_keeps(p, zz, rb, mask, size - 8 + x, y);
    lemma_fill_keeps(p, zz, rb, mask, x, size - 8 + y);
}


/// How many positions of pos name a cell that is unset in g.
pub open spec fn unset_count(g: Grid, pos: Seq<(int, int)>) -> nat
    decreases pos.len(),
{
    if pos.len() == 0 {
        0
    } else {
        (if g[pos[0].1][pos[0].0] == Module::Unset {
            1nat
        } else {
            0nat
        }) + unset_count(g, pos.drop_first())
    }
}

proof fn lemma_count_mono(g: Grid, h: Grid, pos: Seq<(int, int)>)
    requires
        forall|k: int|
            0 <= k < pos.len() ==> (#[trigger] h[pos[k].1][pos[k].0] == Module::Unset ==> g[pos[k].1][pos[k].0]
                == Module::Unset),
    ensures
        unset_count(h, pos) <= unset_count(g, pos),
    decreases pos.len(),
{
    if pos.len() > 0 {
        let rest = pos.drop_first();
        assert forall|k: int| 0 <= k < rest.len() implies (#[trigger] h[rest[k].1][rest[k].0] == Module::Unset
            ==> g[rest[k].1][rest[k].0] == Module::Unset) by {
            assert(rest[k] == pos[k + 1]);
        }
        assert(h[pos[0].1][pos[0].0] == Module::Unset ==> g[pos[0].1][pos[0].0] == Module::Unset);
        lemma_count_mono(g, h, rest);
    }
}

/// With at least as many bits as unset cells on the path, every cell of the path is set
/// after the fill.
proof fn lemma_fill_completes(g: Grid, pos: Seq<(int, int)>, bits: Seq<u8>, mask: Mask)
    requires
        forall|k: int| 0 <= k < pos.len() ==> in_grid(g, #[trigger] pos[k].0, pos[k].1),
        bits.len() >= unset_count(g, pos),
    ensures
        forall|k: int|
            0 <= k < pos.len() ==> #[trigger] fill(g, pos, bits, mask).0[pos[k].1][pos[k].0] != Module::Unset,
    decreases pos.len(),
{
    if pos.len() > 0 {
        let x = pos[0].0;
        let y = pos[0].1;
        let rest = pos.drop_first();
        let r = fill(g, pos, bits, mask).0;
        if g[y][x] == Module::Unset {
            assert(bits.len() > 0);
            let h = set_cell(g, x, y, module_of(masked_bit(mask, x, y, bits.last())));
            assert forall|k: int| 0 <= k < rest.len() implies in_grid(h, #[trigger] rest[k].0, rest[k].1) by {
                assert(rest[k] == pos[k + 1]);
            }
            assert forall|k: int| 0 <= k < rest.len() implies #[trigger] h[rest[k].1][rest[k].0] != Module::Unset || g[rest[k].1][rest[k].0] == Module::Unset by {
                assert(rest[k] == pos[k + 1]);
            }
            lemma_count_mono(g, h, rest);
            lemma_fill_completes(h, rest, bits.drop_last(), mask);
            lemma_fill_keeps(h, rest, bits.drop_last(), mask, x, y);
            assert forall|k: int| 0 <= k < pos.len() implies #[trigger] r[pos[k].1][pos[k].0] != Module::Unset by {
                if k > 0 {
                    assert(pos[k] == rest[k - 1]);
                }
            }
        } else {
            assert forall|k: int| 0 <= k < rest.len() implies in_grid(g, #[trigger] rest[k].0, rest[k].1) by {
                assert(rest[k] == pos[k + 1]);
            }
            lemma_fill_completes(g, rest, bits, mask);
            lemma_fill_keeps(g, rest, bits, mask, x, y);
            assert forall|k: int| 0 <= k < pos.len() implies #[trigger] r[pos[k].1][pos[k].0] != Module::Unset by {
                if k > 0 {
                    assert(pos[k] == rest[k - 1]);
                }
            }
        }
    }
}

proof fn lemma_zigzag_len(size: int, i: int)
    requires
        size >= 0,
        i >= 0,
    ensures
        zigzag(size, i).len() == i * (2 * size),
    decreases i,
{
    if i > 0 {
        lemma_zigzag_len(size, i - 1);
        let st = strip_positions(size, (i - 1) % 2 == 0, strip_col(size, i - 1), 1);
        assert(st.len() == 2 * size);
        assert(zigzag(size, i) == zigzag(size, i - 1) + st);
        assert((i - 1) * (2 * size) + 2 * size == i * (2 * size)) by (nonlinear_arith);
    } else {
        assert(0 * (2 * size) == 0);
    }
}

proof fn lemma_zigzag_prefix(size: int, i: int, n: int)
    requires
        size >= 0,
        0 <= i <= n,
    ensures
        forall|k: int| 0 <= k < zigzag(size, i).len() ==> #[trigger] zigzag(size, n)[k] == zigzag(size, i)[k],
    decreases n,
{
    if n > i {
        lemma_zigzag_prefix(size, i, n - 1);
        lemma_zigzag_len(size, i);
        lemma_zigzag_len(size, n - 1);
        assert(i * (2 * size) <= (n - 1) * (2 * size)) by (nonlinear_arith)
            requires
                i <= n - 1,
                size >= 0,
        ;
        let a = zigzag(size, n - 1);
        let st = strip_positions(size, (n - 1) % 2 == 0, strip_col(size, n - 1), 1);
        assert forall|k: int| 0 <= k < zigzag(size, i).len() implies #[trigger] zigzag(size, n)[k] == zigzag(
            size,
            i,
        )[k] by {
            assert(zigzag(size, n) == a + st);
            assert((a + st)[k] == a[k]);
        }
    }
}

/// Every cell outside the vertical timing column lies on the zig-zag path.
proof fn lemma_zigzag_covers(size: int, x: int, y: int) -> (k: int)
    requires
        size >= 21,
        size % 2 == 1,
        0 <= x < size,
        0 <= y < size,
        x != 6,
    ensures
        0 <= k < zigzag(size, size / 2).len(),
        zigzag(size, size / 2)[k] == (x, y),
{
    let c = size - 1 - x;
    let cc = if x > 6 {
        c
    } else {
        c - 1
    };
    let i = cc / 2;
    let side = cc % 2;
    assert(strip_col(size, i) + side == c);
    let up = i % 2 == 0;
    let r = if up {
        size - 1 - y
    } else {
        y
    };
    let t = 2 * r + side;
    assert(strip_pos(size, up, strip_col(size, i), 1, t) == (x, y));
    lemma_zigzag_len(size, i);
    let k = i * (2 * size) + t;
    let a = zigzag(size, i);
    let st = strip_positions(size, up, strip_col(size, i), 1);
    assert(zigzag(size, i + 1) == a + st);
    assert((a + st)[k] == st[t]);
    lemma_zigzag_len(size, i + 1);
    assert(k < (i + 1) * (2 * size)) by (nonlinear_arith)
        requires
            k == i * (2 * size) + t,
            t < 2 * size,
    ;
    lemma_zigzag_prefix(size, i + 1, size / 2);
    lemma_zigzag_len(size, size / 2);
    assert((i + 1) * (2 * size) <= (size / 2) * (2 * size)) by (nonlinear_arith)
        requires
            i + 1 <= size / 2,
            size >= 0,
    ;
    k
}

/// No cell of a finished symbol is unset, provided the bitstream has at least as many bits
/// as there are unset cells left on the zig-zag path once the function patterns are down.
pub proof fn lemma_no_unset_cells(g: Grid, version: int, level: ErrorLevel, mask: Mask, bits: Seq<u8>)
    requires
        1 <= version <= 40,
        grid_wf(g, 21 + 4 * (version - 1), 21 + 4 * (version - 1)),
        bits.len() >= unset_count(
            patterns_step(g, 21 + 4 * (version - 1), version, level, mask),
            zigzag(21 + 4 * (version - 1), (21 + 4 * (version - 1)) / 2),
        ),
    ensures
        ({
            let size = 21 + 4 * (version - 1);
            let s = symbol_cells(g, size, version, level, mask, bits);
            forall|x: int, y: int|
                0 <= x < size + 2 * MARGIN && 0 <= y < size + 2 * MARGIN ==> #[trigger] s[y][x]
                    != Module::Unset
        }),
{
    let size = 21 + 4 * (version - 1);
    lemma_patterns_cells(g, version, level, mask);
    let p = patterns_step(g, size, version, level, mask);
    let zz = zigzag(size, size / 2);
    lemma_zigzag_in_range(size, size / 2);
    let rb = reversed(bits);
    lemma_fill_completes(p, zz, rb, mask);
    let d = fill(p, zz, rb, mask).0;
    lemma_corner_cells_set(p, size, 0, 0);
    lemma_fill_keeps(p, zz, rb, mask, 0, 0);
    let s = symbol_cells(g, size, version, level, mask, bits);
    assert forall|x: int, y: int|
        0 <= x < size + 2 * MARGIN && 0 <= y < size + 2 * MARGIN implies #[trigger] s[y][x] != Module::Unset by {
        let xx = x - MARGIN;
        let yy = y - MARGIN;
        if 0 <= xx < size && 0 <= yy < size {
            if xx == 6 {
                if 6 <= yy < size - 8 {
                    assert(p[yy][6] == timing_module(yy - 6));
                } else {
                    lemma_corner_cells_set(p, size, 6, yy);
                }
                lemma_fill_keeps(p, zz, rb, mask, 6, yy);
            } else {
                let k = lemma_zigzag_covers(size, xx, yy);
                assert(d[zz[k].1][zz[k].0] != Module::Unset);
            }
            assert(s[y][x] == d[yy][xx]);
        }
    }
}

} // verus!
