//! Bookkeeping of the wavetable grid.
//!
//! The grid is a rows-by-columns arrangement of single-cycle waves of a
//! fixed sample count.  The wave samples themselves and their spectra
//! are floating-point data owned by the surrounding application; this
//! module carries the grid's shape and how many of its cells hold
//! externally loaded wave data.

use vstd::prelude::*;

verus! {

/// A rows-by-columns grid of fixed-length waves.
pub struct Grid {
    rows: usize,
    cols: usize,
    samples: usize,
    loaded: usize,
}

impl Grid {
    /// The number of rows.
    pub closed spec fn spec_rows(&self) -> int {
        self.rows as int
    }

    /// The number of columns.
    pub closed spec fn spec_cols(&self) -> int {
        self.cols as int
    }

    /// The sample count of each wave.
    pub closed spec fn spec_samples(&self) -> int {
        self.samples as int
    }

    /// How many cells hold externally loaded wave data; the rest hold
    /// the default wave.
    pub closed spec fn spec_loaded(&self) -> int {
        self.loaded as int
    }

    /// Shape limits every grid keeps: the cell count fits the machine
    /// and each wave has at least one sample.
    pub closed spec fn inv(&self) -> bool {
        &&& self.rows * self.cols <= usize::MAX
        &&& self.samples >= 1
        &&& self.loaded <= self.rows * self.cols
    }

    /// Builds a grid of the given shape; every cell starts with the
    /// default wave.
    pub fn new(rows: usize, cols: usize, samples: usize) -> (r: Self)
        requires
            rows * cols <= usize::MAX,
            samples >= 1,
        ensures
            r.inv(),
            r.spec_rows() == rows,
            r.spec_cols() == cols,
            r.spec_samples() == samples,
            r.spec_loaded() == 0,
    {
        Grid { rows, cols, samples, loaded: 0 }
    }

    /// The number of waves the grid holds.
    pub fn get_waves(&self) -> (r: usize)
        requires
            self.inv(),
        ensures
            r == self.spec_rows() * self.spec_cols(),
    {
        proof {
            assert(self.rows * self.cols <= usize::MAX);
        }
        self.rows * self.cols
    }

    /// The sample count of each wave.
    pub fn get_samples(&self) -> (r: usize)
        ensures
            r == self.spec_samples(),
    {
        self.samples
    }

    /// The number of rows.
    pub fn get_rows(&self) -> (r: usize)
        ensures
            r == self.spec_rows(),
    {
        self.rows
    }

    /// The number of columns.
    pub fn get_cols(&self) -> (r: usize)
        ensures
            r == self.spec_cols(),
    {
        self.cols
    }

    /// How many cells hold externally loaded wave data.
    pub fn get_loaded(&self) -> (r: usize)
        ensures
            r == self.spec_loaded(),
    {
        self.loaded
    }

    /// Takes note of wave data read from a file with `num_samples`
    /// samples in all: as many whole grid cells as the data can fill,
    /// capped at the grid size, are marked loaded, and their count is
    /// returned.  The surrounding application copies the samples into
    /// its wave store cell by cell.
    pub fn load_waves(&mut self, num_samples: usize) -> (r: Result<usize, ()>)
        requires
            old(self).inv(),
        ensures
            final(self).inv(),
            final(self).spec_rows() == old(self).spec_rows(),
            final(self).spec_cols() == old(self).spec_cols(),
            final(self).spec_samples() == old(self).spec_samples(),
            ({
                let waves = old(self).spec_rows() * old(self).spec_cols();
                let tables = num_samples as int / old(self).spec_samples();
                let loaded = if waves < tables {
                    waves
                } else {
                    tables
                };
                &&& final(self).spec_loaded() == loaded
                &&& r == Ok::<usize, ()>(loaded as usize)
            }),
    {
        let waves = self.get_waves();
        let tables = num_samples / self.samples;
        let n = if waves < tables {
            waves
        } else {
            tables
        };
        self.loaded = n;
        Ok(n)
    }
}

} // verus!
