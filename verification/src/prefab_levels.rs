//! Hand-drawn level templates for the prefab builder: space is floor, `#` is
//! wall, `@` marks the starting position, `>` the stairs down, and letters
//! name monster and item spawns (g goblin, o orc, ^ bear trap, ! potion).

use vstd::prelude::*;

verus! {

/// An ASCII level template with its grid dimensions.
#[derive(Copy, Clone)]
pub struct PrefabLevel {
    pub template: &'static str,
    pub width: usize,
    pub height: usize,
}

/// A small fortified vault: one hall with a guarded treasure room.
pub fn vault_level() -> (level: PrefabLevel)
    ensures
        level.width == 20,
        level.height == 9,
{
    PrefabLevel {
        template: "\
####################\
#                  #\
# @      g         #\
#        #####     #\
#  ^     #  !#     #\
#        #   #     #\
#    o       #    >#\
#        #####     #\
####################",
        width: 20,
        height: 9,
    }
}

} // verus!
