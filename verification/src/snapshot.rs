//! Optional visualization frames: a copy of the map with every tile revealed,
//! captured at each meaningful construction step when the visualizer is on.

use vstd::prelude::*;
use crate::grid::Grid;

verus! {

/// A fully revealed copy of the map when the visualizer is enabled, or
/// nothing when it is off.
pub fn build_snapshot(map: &Grid, enabled: bool) -> (r: Option<Grid>)
    requires
        map.inv(),
    ensures
        enabled <==> r is Some,
        r is Some ==> {
            &&& r->Some_0.inv()
            &&& r->Some_0.width == map.width
            &&& r->Some_0.height == map.height
            &&& r->Some_0.depth == map.depth
            &&& r->Some_0.tiles@ == map.tiles@
            &&& forall|i: int| 0 <= i < r->Some_0.revealed_tiles@.len()
                ==> r->Some_0.revealed_tiles@[i] == true
        },
{
    if enabled {
        let mut snapshot = map.clone();
        let n = snapshot.revealed_tiles.len();
        let mut i: usize = 0;
        while i < n
            invariant
                snapshot.inv(),
                n == snapshot.revealed_tiles@.len(),
                i <= n,
                snapshot.width == map.width,
                snapshot.height == map.height,
                snapshot.depth == map.depth,
                snapshot.tiles@ == map.tiles@,
                forall|k: int| 0 <= k < i ==> snapshot.revealed_tiles@[k] == true,
            decreases n - i,
        {
            snapshot.revealed_tiles.set(i, true);
            i = i + 1;
        }
        Option::Some(snapshot)
    } else {
        Option::None
    }
}

} // verus!
