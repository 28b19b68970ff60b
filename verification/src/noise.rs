//! The coherent-noise source behind the spawn-region partitioner: a seeded
//! integer cell hash. Coordinates are quantized to 8x8 cells and each cell is
//! hashed together with the seed, so nearby tiles tend to share a value and
//! the partitioner gets the loose clusters it needs. The value is a pure
//! function of seed and coordinates, so region grouping is reproducible.

use vstd::prelude::*;

verus! {

/// The largest coordinate the noise field accepts; far above any map size.
pub const NOISE_COORD_MAX: i32 = 100000;

/// The quantized noise value at (x, y) for a field seeded with `seed`.
pub open spec fn noise_cell_of(seed: u64, x: int, y: int) -> int {
    let cx = x / 8;
    let cy = y / 8;
    let h = (seed % 1000003) + cx * 7919 + cy * 104729;
    (h * (h + 1)) % 4093
}

/// A seeded noise field used to group floor tiles into spawn regions.
pub struct RegionNoise {
    seed: u64,
}

impl RegionNoise {
    /// The seed this field was built from.
    pub closed spec fn seed(&self) -> u64 {
        self.seed
    }

    /// Build a noise field from a seed.
    pub fn with_seed(seed: u64) -> (r: RegionNoise)
        ensures
            r.seed() == seed,
    {
        RegionNoise { seed }
    }

    /// The quantized noise value at (x, y).
    pub fn cell_value(&self, x: i32, y: i32) -> (r: i32)
        requires
            0 <= x <= NOISE_COORD_MAX,
            0 <= y <= NOISE_COORD_MAX,
        ensures
            r == noise_cell_of(self.seed(), x as int, y as int),
            0 <= r < 4093,
    {
        let cx = (x / 8) as u64;
        let cy = (y / 8) as u64;
        let s = self.seed % 1000003;
        let h = s + cx * 7919 + cy * 104729;
        proof {
            assert(cx <= 12500 && cy <= 12500);
            assert(h <= 1409100003);
            assert(h * (h + 1) <= 1409100003 * 1409100004) by (nonlinear_arith)
                requires 0 <= h <= 1409100003
            ;
        }
        let v = (h * (h + 1)) % 4093;
        v as i32
    }
}

} // verus!
