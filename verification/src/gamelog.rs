use vstd::prelude::*;

verus! {

/// The messages shown to the player, oldest first.
pub struct GameLog {
    pub entries: Vec<String>,
}

} // verus!
