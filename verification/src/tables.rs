//! The lookup tables that move generation reads.
use crate::magic_bitboards::{MagicMover, builtin_hashers_magic, init_magic_mover};
use crate::search_masks::{SearchMasks, init_masks};
use vstd::prelude::*;

verus! {

/// Knight, king and pawn target tables, and the magic tables of rooks and bishops.
pub struct MoveTables {
    pub masks: SearchMasks,
    pub magic: MagicMover,
}

impl MoveTables {
    pub open spec fn wf(&self) -> bool {
        self.masks.wf() && self.magic.wf()
    }
}

/// Builds all tables; nothing unless the built-in magic numbers are magic.
pub fn init_tables() -> (r: Option<MoveTables>)
    ensures
        r is Some <==> builtin_hashers_magic(),
        r matches Some(t) ==> t.wf(),
{
    let magic = init_magic_mover()?;
    Some(MoveTables { masks: init_masks(), magic })
}

} // verus!
