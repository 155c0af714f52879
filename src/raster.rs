//! Row-major pixel grids and their mathematical model.
use vstd::prelude::*;

verus! {

/// The model of a grid: its width and its rows, the top row first.
pub struct Raster<T> {
    pub width: nat,
    pub rows: Seq<Seq<T>>,
}

impl<T> Raster<T> {
    pub open spec fn height(self) -> nat {
        self.rows.len()
    }

    /// The value at column `x` of row `y`.
    pub open spec fn at(self, x: int, y: int) -> T {
        self.rows[y][x]
    }

    /// Every row is `width` long, and both dimensions fit in a `u32`.
    pub open spec fn wf(self) -> bool {
        &&& self.width <= u32::MAX
        &&& self.rows.len() <= u32::MAX
        &&& forall|y: int| 0 <= y < self.rows.len() ==> (#[trigger] self.rows[y]).len() == self.width
    }
}

/// The model of a vector of rows.
pub open spec fn rows_model<T>(rows: Seq<Vec<T>>) -> Seq<Seq<T>> {
    rows.map_values(|r: Vec<T>| r@)
}

/// A colour pixel.
#[derive(Clone, Copy, Debug, PartialEq, Eq, Structural)]
pub struct Rgb {
    pub r: u8,
    pub g: u8,
    pub b: u8,
}

/// A rectangular grid of values, stored row by row.
pub struct Grid<T> {
    width: u32,
    rows: Vec<Vec<T>>,
}

/// A grayscale image.
pub type GrayImage = Grid<u8>;

/// A colour image.
pub type RgbImage = Grid<Rgb>;

/// A grid of per-pixel energies (gradient magnitudes).
pub type EnergyGrid = Grid<u32>;

impl<T> View for Grid<T> {
    type V = Raster<T>;

    closed spec fn view(&self) -> Raster<T> {
        Raster { width: self.width as nat, rows: rows_model(self.rows@) }
    }
}

impl<T> Grid<T> {
    #[verifier::type_invariant]
    spec fn inv(self) -> bool {
        self@.wf()
    }
}

impl<T: Copy> Grid<T> {
    /// Builds a grid from rows that are known to be well formed.
    pub(crate) fn from_valid_rows(width: u32, rows: Vec<Vec<T>>) -> (r: Self)
        requires
            (Raster { width: width as nat, rows: rows_model(rows@) }).wf(),
        ensures
            r@ == (Raster { width: width as nat, rows: rows_model(rows@) }),
    {
        Grid { width, rows }
    }

    /// Builds a grid of the given width from its rows, top row first.
    /// Returns `None` when a row is not `width` long or there are more than
    /// `u32::MAX` rows.
    pub fn from_rows(width: u32, rows: Vec<Vec<T>>) -> (r: Option<Self>)
        ensures
            (Raster { width: width as nat, rows: rows_model(rows@) }).wf() <==> r.is_some(),
            r matches Some(g) ==> g@ == (Raster { width: width as nat, rows: rows_model(rows@) }),
    {
        if rows.len() > u32::MAX as usize {
            return None;
        }
        let mut y: usize = 0;
        while y < rows.len()
            invariant
                y <= rows.len(),
                forall|i: int| 0 <= i < y ==> (#[trigger] rows@[i])@.len() == width,
            decreases rows.len() - y,
        {
            if rows[y].len() != width as usize {
                assert(rows_model(rows@)[y as int].len() != width);
                return None;
            }
            y += 1;
        }
        assert forall|i: int| 0 <= i < rows_model(rows@).len() implies
            (#[trigger] rows_model(rows@)[i]).len() == width by {
            assert(rows@[i]@.len() == width);
        }
        Some(Grid { width, rows })
    }

    pub fn width(&self) -> (r: u32)
        ensures
            r == self@.width,
            self@.wf(),
    {
        proof {
            use_type_invariant(self);
        }
        self.width
    }

    pub fn height(&self) -> (r: u32)
        ensures
            r == self@.height(),
            self@.wf(),
    {
        proof {
            use_type_invariant(self);
        }
        self.rows.len() as u32
    }

    /// The value at column `x` of row `y`.
    pub fn get_pixel(&self, x: u32, y: u32) -> (r: T)
        requires
            x < self@.width,
            y < self@.height(),
        ensures
            r == self@.at(x as int, y as int),
    {
        proof {
            use_type_invariant(self);
            assert(rows_model(self.rows@)[y as int] == self.rows@[y as int]@);
        }
        self.rows[y as usize][x as usize]
    }

    /// The rows of the grid, top row first.
    pub fn rows(&self) -> (r: &Vec<Vec<T>>)
        ensures
            rows_model(r@) == self@.rows,
            self@.wf(),
    {
        proof {
            use_type_invariant(self);
        }
        &self.rows
    }

    /// A grid with the same values as this one.
    pub fn duplicate(&self) -> (r: Self)
        ensures
            r@ == self@,
    {
        proof {
            use_type_invariant(self);
        }
        let mut rows: Vec<Vec<T>> = Vec::new();
        let mut y: usize = 0;
        while y < self.rows.len()
            invariant
                self@.wf(),
                y <= self.rows@.len(),
                rows@.len() == y,
                forall|i: int| 0 <= i < y ==> (#[trigger] rows@[i])@ == self.rows@[i]@,
            decreases self.rows@.len() - y,
        {
            let line = &self.rows[y];
            let mut row: Vec<T> = Vec::new();
            let mut x: usize = 0;
            while x < line.len()
                invariant
                    x <= line@.len(),
                    row@ =~= line@.subrange(0, x as int),
                decreases line@.len() - x,
            {
                row.push(line[x]);
                x += 1;
            }
            assert(row@ =~= line@);
            rows.push(row);
            y += 1;
        }
        assert(rows_model(rows@) =~= rows_model(self.rows@));
        Grid { width: self.width, rows }
    }

    /// Takes the grid apart into its rows.
    pub fn into_rows(self) -> (r: Vec<Vec<T>>)
        ensures
            rows_model(r@) == self@.rows,
    {
        self.rows
    }
}

} // verus!
