//! The records that a resolution works on: tentative moves, and the
//! fingerprints of transfers between blocks.

use vstd::prelude::*;

use super::game::{BlockNo, Cell, Game};
use super::point::TransferPoint;
use super::utility::{Direction, GlobalPos};

verus! {

/// A tentative move: where a cell will be, and in which orientation, should
/// the resolution succeed. `direction` is the direction in which the cell
/// travels.
#[derive(Copy, Clone, Debug, PartialEq, Eq)]
pub struct MoveState {
    pub cell_id: usize,
    pub direction: Direction,
    pub gpos: GlobalPos,
    pub fliph: bool,
}

/// The fingerprint of one transfer across the edge of a block.
#[derive(Copy, Clone, Debug, PartialEq, Eq)]
pub struct TransferState {
    pub block_no: BlockNo,
    pub direction: Direction,
    pub point: TransferPoint,
    /// How often this fingerprint came up again.
    pub degree: u32,
    pub fliph: bool,
}

/// What identifies a transfer: leaving a block in a direction, or entering
/// one in a direction at a point.
#[derive(Copy, Clone, Debug, PartialEq, Eq)]
pub enum TransferKey {
    Exit(BlockNo, Direction),
    Enter(BlockNo, Direction, TransferPoint),
}

/// The transfers of the move that is being resolved, in the order in which
/// they were made.
#[derive(Clone, Debug)]
pub struct TransferCache {
    pub exit: Vec<TransferState>,
    pub enter: Vec<TransferState>,
}

/// A [`TransferCache`] as a mathematical value.
pub struct CacheView {
    pub exit: Seq<TransferState>,
    pub enter: Seq<TransferState>,
}

impl MoveState {
    /// The move of a cell that has not gone anywhere yet.
    pub open spec fn start(cell: Cell, direction: Direction) -> MoveState {
        MoveState {
            cell_id: cell.spec_id(),
            direction,
            gpos: cell.spec_gpos(),
            fliph: cell.spec_fliph(),
        }
    }

    /// This record with the place and the orientation of `other`.
    pub open spec fn updated(self, other: MoveState) -> MoveState {
        MoveState { gpos: other.gpos, fliph: other.fliph, ..self }
    }

    pub fn new(cell: &Cell, direction: Direction) -> (r: MoveState)
        ensures
            r == MoveState::start(*cell, direction),
    {
        MoveState { cell_id: cell.id(), direction, gpos: cell.gpos(), fliph: cell.fliph() }
    }

    /// Takes the place and the orientation of `other`.
    pub fn update(&mut self, other: MoveState)
        ensures
            *final(self) == old(self).updated(other),
    {
        self.gpos = other.gpos;
        self.fliph = other.fliph;
    }

    /// Carries the move out.
    pub(crate) fn apply(self, game: &mut Game)
        requires
            self.cell_id < old(game)@.cells.len(),
        ensures
            final(game)@ == old(game)@.with_move(self.cell_id, self.gpos, self.fliph),
    {
        game.move_cell(self.cell_id, self.gpos, self.fliph);
    }
}

impl TransferState {
    pub open spec fn spec_exit_key(&self) -> TransferKey {
        TransferKey::Exit(self.block_no, self.direction)
    }

    pub open spec fn spec_enter_key(&self) -> TransferKey {
        TransferKey::Enter(self.block_no, self.direction, self.point)
    }

    /// Whether this transfer is the one that `key` identifies.
    pub open spec fn has_key(&self, key: TransferKey) -> bool {
        match key {
            TransferKey::Exit(no, direction) => self.block_no == no && self.direction == direction,
            TransferKey::Enter(no, direction, point) => self.block_no == no && self.direction
                == direction && self.point == point,
        }
    }

    #[verifier::when_used_as_spec(spec_exit_key)]
    pub fn exit_key(&self) -> (r: TransferKey)
        ensures
            r == self.spec_exit_key(),
    {
        TransferKey::Exit(self.block_no, self.direction)
    }

    #[verifier::when_used_as_spec(spec_enter_key)]
    pub fn enter_key(&self) -> (r: TransferKey)
        ensures
            r == self.spec_enter_key(),
    {
        TransferKey::Enter(self.block_no, self.direction, self.point)
    }

    /// Computes [`TransferState::has_key`].
    pub fn matches_key(&self, key: &TransferKey) -> (r: bool)
        ensures
            r == self.has_key(*key),
    {
        match key {
            TransferKey::Exit(no, direction) => self.block_no == *no && self.direction == *direction,
            TransferKey::Enter(no, direction, point) => self.block_no == *no && self.direction
                == *direction && self.point == *point,
        }
    }
}

/// The index of the first transfer at or after `from` that has `key`.
pub open spec fn position_from(states: Seq<TransferState>, key: TransferKey, from: int) -> Option<
    int,
>
    decreases states.len() - from,
{
    if from < 0 || from >= states.len() {
        None
    } else if states[from].has_key(key) {
        Some(from)
    } else {
        position_from(states, key, from + 1)
    }
}

/// The index of the first transfer that has `key`.
pub open spec fn position(states: Seq<TransferState>, key: TransferKey) -> Option<int> {
    position_from(states, key, 0)
}

impl CacheView {
    pub open spec fn empty() -> CacheView {
        CacheView { exit: Seq::empty(), enter: Seq::empty() }
    }

    /// Every point in the cache is a fraction between 0 and 1 in lowest
    /// terms.
    pub open spec fn wf(self) -> bool {
        &&& forall|i: int| 0 <= i < self.exit.len() ==> (#[trigger] self.exit[i]).point.is_unit()
        &&& forall|i: int| 0 <= i < self.enter.len() ==> (#[trigger] self.enter[i]).point.is_unit()
    }
}

impl View for TransferCache {
    type V = CacheView;

    open spec fn view(&self) -> CacheView {
        CacheView { exit: self.exit@, enter: self.enter@ }
    }
}

impl TransferCache {
    pub fn new() -> (r: TransferCache)
        ensures
            r@ == CacheView::empty(),
    {
        TransferCache { exit: Vec::new(), enter: Vec::new() }
    }

    pub fn clear(&mut self)
        ensures
            final(self)@ == CacheView::empty(),
    {
        self.exit.clear();
        self.enter.clear();
    }

    /// Looks `key` up in `stack`: the index of the first transfer that has
    /// it.
    pub fn find_state(stack: &Vec<TransferState>, key: &TransferKey) -> (r: Option<usize>)
        ensures
            match r {
                Some(i) => position(stack@, *key) == Some(i as int) && i < stack@.len(),
                None => position(stack@, *key) is None,
            },
    {
        let mut i: usize = 0;
        while i < stack.len()
            invariant
                0 <= i <= stack@.len(),
                position(stack@, *key) == position_from(stack@, *key, i as int),
            decreases stack@.len() - i,
        {
            if stack[i].matches_key(key) {
                return Some(i);
            }
            i += 1;
        }
        None
    }

    /// Records a transfer, unless one with the same key is on `stack`
    /// already. In that case everything above that one is dropped, and its
    /// index is returned.
    pub fn try_push_state(stack: &mut Vec<TransferState>, state: TransferState, key: &TransferKey) -> (r:
        Option<usize>)
        ensures
            match r {
                Some(i) => position(old(stack)@, *key) == Some(i as int) && final(stack)@ == old(stack)@.take(i + 1),
                None => position(old(stack)@, *key) is None && final(stack)@ == old(stack)@.push(
                    state,
                ),
            },
    {
        match Self::find_state(stack, key) {
            Some(i) => {
                let len = stack.len();
                assert(i < len);
                stack.truncate(i + 1);
                Some(i)
            },
            None => {
                stack.push(state);
                None
            },
        }
    }
}

} // verus!
