//! The resolver: one press of a direction, turned into moves.

use vstd::prelude::*;

use super::game::{
    lemma_find_from, placed, ActionType, Block, BlockNo, Cell, Game, GameView, Query,
};
use super::laws::{lemma_commit_distinct, lemma_commit_players};
use super::model::{
    committed, extends, landing, lemma_stack_position_from, played, played_from, record_ok,
    stack_position_from, step_ok, turn, SimView, DEPTH_LIMIT,
};
use super::moves::{
    position, CacheView, MoveState, TransferCache, TransferKey, TransferState,
};
use super::point::{flip_heading, TransferPoint};
use super::utility::{Direction, GlobalPos, Pos, ROOT};

verus! {

/// Resolves the turns of the players of a game.
pub struct Simulator<'a> {
    pub game: &'a mut Game,
    /// The index of the player whose turn it is.
    pub player_index: usize,
    /// The cells that are to move, each with the place and the orientation
    /// that it will have.
    pub move_stack: Vec<MoveState>,
    /// The moves from this index on are carried out.
    pub move_index: usize,
    /// The transfers of the move on top of the stack.
    pub transfer_cache: TransferCache,
    /// The transfers of the moves below it.
    pub transfer_stack: Vec<TransferCache>,
}

/// The caches of a stack of caches, as mathematical values.
pub open spec fn cache_views(caches: Seq<TransferCache>) -> Seq<CacheView> {
    Seq::new(caches.len(), |i: int| caches[i]@)
}

/// The traveller after it passed `portal` at `point`.
fn pass_through(portal: &Cell, current: MoveState, point: TransferPoint, fliph: bool) -> (r: (
    MoveState,
    TransferPoint,
))
    requires
        point.is_unit(),
    ensures
        r == SimView::through(*portal, current, point, fliph),
        r.1.is_unit(),
        r.0.cell_id == current.cell_id,
        r.0.gpos == portal.spec_gpos(),
{
    let flips = portal.fliph();
    let heading = if flips {
        flip_heading(current.direction, point)
    } else {
        (current.direction, point)
    };
    (
        MoveState {
            cell_id: current.cell_id,
            direction: heading.0,
            gpos: portal.gpos(),
            fliph: if flips {
                !fliph
            } else {
                fliph
            },
        },
        heading.1,
    )
}

/// Computes [`landing`].
fn land(block: &Block, direction: Direction, point: TransferPoint) -> (r: Option<
    (Pos, TransferPoint),
>)
    requires
        point.is_unit(),
        block.width >= 1,
        block.height >= 1,
    ensures
        r == landing(*block, direction, point),
        r is Some ==> block.contains(r.unwrap().0) && r.unwrap().1.is_unit(),
{
    let side = match direction {
        Direction::Up | Direction::Down => block.width,
        _ => block.height,
    };
    match point.enter(side) {
        None => None,
        Some((coord, rest)) => Some(
            (
                match direction {
                    Direction::Up => Pos(coord, 0),
                    Direction::Down => Pos(coord, block.height - 1),
                    Direction::Left => Pos(block.width - 1, coord),
                    Direction::Right => Pos(0, coord),
                },
                rest,
            ),
        ),
    }
}

impl<'a> View for Simulator<'a> {
    type V = SimView;

    open spec fn view(&self) -> SimView {
        SimView {
            game: (*self.game)@,
            player_index: self.player_index,
            move_stack: self.move_stack@,
            move_index: self.move_index,
            cache: self.transfer_cache@,
            saved: cache_views(self.transfer_stack@),
        }
    }
}

impl<'a> Simulator<'a> {
    pub fn new(game: &'a mut Game) -> (r: Simulator<'a>)
        ensures
            r@ == SimView::fresh(old(game)@, 0),
            *final(r.game) == *final(game),
    {
        let r = Simulator {
            game,
            player_index: 0,
            move_stack: Vec::new(),
            move_index: 0,
            transfer_cache: TransferCache::new(),
            transfer_stack: Vec::new(),
        };
        assert(r@.saved =~= Seq::empty());
        r
    }

    /// Resolves one press of `direction`: each player in turn tries to move,
    /// and where that succeeds, the moves that the resolution settled on are
    /// carried out.
    pub fn play(&mut self, direction: Direction)
        requires
            old(self)@.game.wf(),
        ensures
            final(self)@ == SimView::fresh(played(old(self)@.game, direction), 0),
            final(self)@.game.wf(),
            old(self)@.game.positions_distinct() ==> final(self)@.game.positions_distinct(),
            old(self)@.game.players_possessable() ==> final(self)@.game.players_possessable(),
            final(self)@.game.goals == old(self)@.game.goals,
            final(self)@.game.player_ids.len() == old(self)@.game.player_ids.len(),
            old(self)@.game.cells.len() <= final(self)@.game.cells.len(),
            *final(final(self).game) == *final(old(self).game),
    {
        let count = self.game.player_ids().len();
        let ghost start = self@.game;
        let mut i: usize = 0;
        while i < count
            invariant
                0 <= i <= count,
                start == old(self)@.game,
                self@.game.wf(),
                self@.game.player_ids.len() == count,
                self@.game.goals == start.goals,
                start.cells.len() <= self@.game.cells.len(),
                start.positions_distinct() ==> self@.game.positions_distinct(),
                start.players_possessable() ==> self@.game.players_possessable(),
                played(start, direction) == played_from(
                    self@.game,
                    direction,
                    i as nat,
                    count as nat,
                ),
                *final(self.game) == *final(old(self).game),
            decreases count - i,
        {
            self.reset(i);
            let player_id = self.game.player_ids()[i];
            if self.try_move(player_id, direction, DEPTH_LIMIT) {
                proof {
                    if self@.game.positions_distinct() {
                        lemma_commit_distinct(self@);
                    }
                    if self@.game.players_possessable() {
                        lemma_commit_players(self@);
                    }
                }
                self.commit();
            }
            i += 1;
        }
        self.reset(0);
    }

    /// Forgets the moves and the transfers of the last turn, and makes it the
    /// turn of player `player_index`.
    fn reset(&mut self, player_index: usize)
        ensures
            final(self)@ == SimView::fresh(old(self)@.game, player_index),
            *final(final(self).game) == *final(old(self).game),
    {
        self.player_index = player_index;
        self.move_stack.clear();
        self.move_index = 0;
        self.transfer_stack.clear();
        self.transfer_cache.clear();
        assert(self@.saved =~= Seq::empty());
    }

    /// Carries out the moves from `move_index` on.
    fn commit(&mut self)
        requires
            old(self)@.inv(),
        ensures
            final(self)@.game == committed(
                old(self)@.game,
                old(self)@.move_stack,
                old(self)@.move_index as int,
            ),
            final(self)@.game.wf(),
            final(self)@.game.goals == old(self)@.game.goals,
            final(self)@.game.player_ids == old(self)@.game.player_ids,
            final(self)@.game.cells.len() == old(self)@.game.cells.len(),
            *final(final(self).game) == *final(old(self).game),
    {
        let mut k: usize = self.move_index;
        while k < self.move_stack.len()
            invariant
                self.move_index <= k <= self.move_stack@.len(),
                self.move_stack@ == old(self)@.move_stack,
                self@.game.wf(),
                self@.game.goals == old(self)@.game.goals,
                self@.game.player_ids == old(self)@.game.player_ids,
                self@.game.cells.len() == old(self)@.game.cells.len(),
                forall|j: int|
                    0 <= j < self.move_stack@.len() ==> record_ok(
                        self@.game.cells,
                        #[trigger] self.move_stack@[j],
                    ),
                committed(old(self)@.game, old(self)@.move_stack, old(self)@.move_index as int)
                    == committed(self@.game, self.move_stack@, k as int),
                *final(self.game) == *final(old(self).game),
            decreases self.move_stack@.len() - k,
        {
            let state = self.move_stack[k];
            proof {
                lemma_move_wf(self@.game, state.cell_id, state.gpos, state.fliph);
            }
            state.apply(self.game);
            k += 1;
        }
    }

    /// The index of the first move at or after `from` that is a move of
    /// `cell_id`.
    fn find_move(&self, cell_id: usize, from: usize) -> (r: Option<usize>)
        ensures
            match r {
                Some(i) => stack_position_from(self@.move_stack, cell_id, from as int) == Some(
                    i as int,
                ) && i < self@.move_stack.len(),
                None => stack_position_from(self@.move_stack, cell_id, from as int) is None,
            },
    {
        let mut i: usize = from;
        while i < self.move_stack.len()
            invariant
                from <= i,
                stack_position_from(self.move_stack@, cell_id, from as int) == stack_position_from(
                    self.move_stack@,
                    cell_id,
                    i as int,
                ),
            decreases self.move_stack@.len() - i,
        {
            if self.move_stack[i].cell_id == cell_id {
                return Some(i);
            }
            i += 1;
        }
        None
    }

    /// Checks whether the given cell is already in the move stack, that is,
    /// whether a cycle exists.
    ///
    /// If no cycle exists, returns `None`.
    ///
    /// If a cycle exists, and the cells in it can move together, returns the
    /// index of the cell in the move stack, i.e. the new `move_index`.
    fn check_cycle(&self, cell_id: usize, direction: Direction) -> (r: Option<Result<usize, ()>>)
        ensures
            r == self@.check_cycle(cell_id, direction),
            r matches Some(Ok(i)) ==> self@.move_index <= i < self@.move_stack.len()
                && self@.move_stack[i as int].cell_id == cell_id,
    {
        proof {
            lemma_stack_position_from(self@.move_stack, cell_id, 0);
        }
        match self.find_move(cell_id, 0) {
            Some(i) => {
                if i >= self.move_index && self.move_stack[i].direction == direction {
                    Some(Ok(i))
                } else {
                    Some(Err(()))
                }
            },
            None => None,
        }
    }

    /// Starts a new move and pushes it to the move stack. Also pushes the old
    /// transfer cache to the transfer stack.
    fn push_move(&mut self, record: MoveState)
        requires
            old(self)@.inv(),
            record_ok(old(self)@.game.cells, record),
            !old(self)@.on_stack(record.cell_id),
            old(self)@.claims(record.cell_id),
            record.gpos.block_id != ROOT,
            old(self)@.place_of(record.cell_id).block_id != ROOT,
        ensures
            final(self)@ == old(self)@.pushed(record),
            final(self)@.inv(),
            *final(final(self).game) == *final(old(self).game),
    {
        proof {
            lemma_stack_position_from(self@.move_stack, record.cell_id, 0);
        }
        self.move_stack.push(record);
        let mut cache = TransferCache::new();
        core::mem::swap(&mut self.transfer_cache, &mut cache);
        self.transfer_stack.push(cache);
        assert(self@.saved =~= old(self)@.saved.push(old(self)@.cache));
    }

    /// Pops the last move from the move stack, restoring the transfer cache.
    fn pop_move(&mut self)
        requires
            old(self)@.inv(),
            old(self)@.move_stack.len() >= 1,
            old(self)@.move_index < old(self)@.move_stack.len(),
        ensures
            final(self)@ == old(self)@.popped(),
            final(self)@.inv(),
            *final(final(self).game) == *final(old(self).game),
    {
        self.move_stack.pop();
        assert(old(self)@.saved.last() == self.transfer_stack@.last()@);
        self.transfer_cache = self.transfer_stack.pop().unwrap();
        assert(self@.saved =~= old(self)@.saved.drop_last());
    }

    /// Gives the move on top of the stack the place and the orientation of
    /// `current`.
    fn update_top(&mut self, current: MoveState)
        requires
            old(self)@.inv(),
            old(self)@.move_stack.len() >= 1,
            placed_in(old(self)@, current),
            current.gpos.block_id != ROOT,
        ensures
            final(self)@ == old(self)@.with_top(current),
            final(self)@.inv(),
            *final(final(self).game) == *final(old(self).game),
    {
        let last = self.move_stack.len() - 1;
        let mut top = self.move_stack[last];
        top.update(current);
        self.move_stack[last] = top;
    }

    /// See [`SimView::exit_first`].
    fn exit_first(&mut self, current: MoveState, exit_id: usize, no: BlockNo, point: TransferPoint) -> (r:
        Option<(usize, MoveState, TransferPoint)>)
        requires
            old(self)@.inv(),
            current.cell_id < old(self)@.game.cells.len(),
            exit_id < old(self)@.game.cells.len(),
            point.is_unit(),
            position(old(self)@.cache.exit, TransferKey::Exit(no, current.direction)) is None,
        ensures
            match r {
                None => old(self)@.exit_first(current, exit_id, no, point) is None && final(self)@
                    == old(self)@,
                Some((id, out, p)) => old(self)@.exit_first(current, exit_id, no, point) == Some(
                    (final(self)@, id, out, p),
                ) && id < final(self)@.game.cells.len() && record_ok(final(self)@.game.cells, out)
                    && out.gpos.block_id != ROOT && p.is_unit(),
            },
            step_ok(old(self)@, false, final(self)@),
            final(self)@.move_stack == old(self)@.move_stack,
            *final(final(self).game) == *final(old(self).game),
    {
        let portal = self.game.cells()[exit_id];
        if portal.gpos().block_id == ROOT {
            return None;
        }
        let probe = TransferState {
            block_no: no,
            direction: current.direction,
            point,
            degree: 0,
            fliph: current.fliph,
        };
        let key = TransferKey::Exit(no, current.direction);
        TransferCache::try_push_state(&mut self.transfer_cache.exit, probe, &key);
        let out = pass_through(&portal, current, point, current.fliph);
        Some((exit_id, out.0, out.1))
    }

    /// See [`SimView::exit_again`].
    fn exit_again(&mut self, current: MoveState, no: BlockNo, i: usize) -> (r: Option<
        (usize, MoveState, TransferPoint),
    >)
        requires
            old(self)@.inv(),
            current.cell_id < old(self)@.game.cells.len(),
            position(old(self)@.cache.exit, TransferKey::Exit(no, current.direction)) == Some(
                i as int,
            ),
            i < old(self)@.cache.exit.len(),
        ensures
            match r {
                None => old(self)@.exit_again(current, no, i as int) is None && final(self)@
                    == old(self)@,
                Some((id, out, p)) => old(self)@.exit_again(current, no, i as int) == Some(
                    (final(self)@, id, out, p),
                ) && id < final(self)@.game.cells.len() && record_ok(final(self)@.game.cells, out)
                    && out.gpos.block_id != ROOT && p.is_unit(),
            },
            step_ok(old(self)@, false, final(self)@),
            final(self)@.move_stack == old(self)@.move_stack,
            *final(final(self).game) == *final(old(self).game),
    {
        let entry = self.transfer_cache.exit[i];
        if entry.degree == u32::MAX {
            return None;
        }
        proof {
            lemma_find_from(self@.game.cells, Query::InfExit(no, entry.degree), 0);
        }
        let id = match self.game.inf_exit_id_for(no, entry.degree) {
            Some(id) => {
                if self.game.cells()[id].gpos().block_id == ROOT {
                    return None;
                }
                id
            },
            None => {
                if !self.game.has_room() {
                    return None;
                }
                self.game.add_inf_exit_for(no, entry.degree)
            },
        };
        let key = TransferKey::Exit(no, current.direction);
        TransferCache::try_push_state(&mut self.transfer_cache.exit, entry, &key);
        self.transfer_cache.exit[i] = TransferState { degree: entry.degree + 1, ..entry };
        let portal = self.game.cells()[id];
        let out = pass_through(&portal, current, entry.point, entry.fliph);
        Some((id, out.0, out.1))
    }

    /// See [`SimView::exit_step`].
    fn exit_step(&mut self, current: MoveState, exit_point: TransferPoint) -> (r: Option<
        (usize, MoveState, TransferPoint),
    >)
        requires
            old(self)@.inv(),
            current.cell_id < old(self)@.game.cells.len(),
            current.gpos.block_id < old(self)@.game.cells.len(),
            old(self)@.game.cells[current.gpos.block_id as int] is Block,
            ({
                let b = old(self)@.game.cells[current.gpos.block_id as int]->Block_0;
                if current.direction.is_vertical() {
                    0 <= current.gpos.pos.0 < b.width
                } else {
                    0 <= current.gpos.pos.1 < b.height
                }
            }),
            exit_point.is_unit(),
        ensures
            match r {
                None => old(self)@.exit_step(current, exit_point) is None && final(self)@ == old(
                    self,
                )@,
                Some((id, out, point)) => old(self)@.exit_step(current, exit_point) == Some(
                    (final(self)@, id, out, point),
                ) && id < final(self)@.game.cells.len() && record_ok(final(self)@.game.cells, out)
                    && out.gpos.block_id != ROOT && point.is_unit(),
            },
            step_ok(old(self)@, false, final(self)@),
            final(self)@.move_stack == old(self)@.move_stack,
            *final(final(self).game) == *final(old(self).game),
    {
        let container: Block = match self.game.cells()[current.gpos.block_id] {
            Cell::Block(b) => b,
            _ => return None,
        };
        let along = match current.direction {
            Direction::Up | Direction::Down => (current.gpos.pos.0, container.width),
            _ => (current.gpos.pos.1, container.height),
        };
        let exit_id = match self.game.exit_id_for(&container) {
            Some(id) => id,
            None => return None,
        };
        let point = match exit_point.exit(along.0, along.1) {
            Some(p) => p,
            None => return None,
        };
        proof {
            lemma_find_from(self@.game.cells, Query::ExitOf(container.block_no), 0);
        }
        let no = match self.game.cells()[exit_id] {
            Cell::Reference(r) => r.target_no,
            Cell::Block(b) => b.block_no,
            Cell::Wall(_) => container.block_no,
        };
        let key = TransferKey::Exit(no, current.direction);
        match TransferCache::find_state(&self.transfer_cache.exit, &key) {
            None => self.exit_first(current, exit_id, no, point),
            Some(i) => self.exit_again(current, no, i),
        }
    }

    /// See [`SimView::block_to_enter`].
    fn block_to_enter(&self, target_id: usize) -> (r: Option<Block>)
        requires
            self@.inv(),
            target_id < self@.game.cells.len(),
        ensures
            r == self@.block_to_enter(target_id),
            r matches Some(b) ==> b.id < self@.game.cells.len() && self@.game.cells[b.id as int]
                == Cell::Block(b),
    {
        match self.game.cells()[target_id] {
            Cell::Wall(_) => None,
            Cell::Block(b) => {
                if self.game.is_space(b.gpos.block_id) || b.locked {
                    None
                } else {
                    Some(b)
                }
            },
            Cell::Reference(r) => {
                if !r.can_enter() || self.game.is_space(r.gpos.block_id) {
                    None
                } else {
                    match self.game.block_by_no(r.target_no) {
                        Some(b) => Some(*b),
                        None => None,
                    }
                }
            },
        }
    }

    /// See [`SimView::enter_first`].
    fn enter_first(
        &mut self,
        current: MoveState,
        block: Block,
        direction: Direction,
        point: TransferPoint,
        flips: bool,
    ) -> (r: Option<(MoveState, TransferPoint)>)
        requires
            old(self)@.inv(),
            current.cell_id < old(self)@.game.cells.len(),
            block.id < old(self)@.game.cells.len(),
            old(self)@.game.cells[block.id as int] == Cell::Block(block),
            !block.filled,
            point.is_unit(),
            position(
                old(self)@.cache.enter,
                TransferKey::Enter(block.block_no, direction, point),
            ) is None,
        ensures
            match r {
                None => old(self)@.enter_first(current, block, direction, point, flips) is None
                    && final(self)@ == old(self)@,
                Some((landed, rest)) => old(self)@.enter_first(
                    current,
                    block,
                    direction,
                    point,
                    flips,
                ) == Some((final(self)@, landed, rest)) && record_ok(
                    final(self)@.game.cells,
                    landed,
                ) && landed.gpos.block_id != ROOT && rest.is_unit(),
            },
            step_ok(old(self)@, false, final(self)@),
            final(self)@.move_stack == old(self)@.move_stack,
            *final(final(self).game) == *final(old(self).game),
    {
        let probe = TransferState {
            block_no: block.block_no,
            direction,
            point,
            degree: 0,
            fliph: current.fliph,
        };
        let (pos, rest) = match land(&block, direction, point) {
            Some(x) => x,
            None => return None,
        };
        let key = TransferKey::Enter(block.block_no, direction, point);
        TransferCache::try_push_state(&mut self.transfer_cache.enter, probe, &key);
        Some(
            (
                MoveState {
                    cell_id: current.cell_id,
                    direction,
                    gpos: GlobalPos { block_id: block.id, pos },
                    fliph: if flips {
                        !current.fliph
                    } else {
                        current.fliph
                    },
                },
                rest,
            ),
        )
    }

    /// See [`SimView::enter_again`].
    fn enter_again(&mut self, current: MoveState, block: Block, direction: Direction, point: TransferPoint, i: usize) -> (r:
        Option<(MoveState, TransferPoint)>)
        requires
            old(self)@.inv(),
            current.cell_id < old(self)@.game.cells.len(),
            position(
                old(self)@.cache.enter,
                TransferKey::Enter(block.block_no, direction, point),
            ) == Some(i as int),
            i < old(self)@.cache.enter.len(),
        ensures
            match r {
                None => old(self)@.enter_again(current, block, direction, i as int) is None
                    && final(self)@ == old(self)@,
                Some((landed, rest)) => old(self)@.enter_again(current, block, direction, i as int)
                    == Some((final(self)@, landed, rest)) && record_ok(
                    final(self)@.game.cells,
                    landed,
                ) && landed.gpos.block_id != ROOT && rest.is_unit(),
            },
            step_ok(old(self)@, false, final(self)@),
            final(self)@.move_stack == old(self)@.move_stack,
            *final(final(self).game) == *final(old(self).game),
    {
        let entry = self.transfer_cache.enter[i];
        let middle = TransferPoint::middle();
        proof {
            lemma_find_from(self@.game.cells, Query::InfEnter(block.block_no, entry.degree), 0);
        }
        let found = self.game.inf_enter_id_for(&block, entry.degree);
        if entry.degree == u32::MAX {
            return None;
        }
        let id = match found {
            Some(id) => {
                let inner: Block = match self.game.cells()[id] {
                    Cell::Block(b) => b,
                    _ => return None,
                };
                if inner.filled {
                    return None;
                }
                if land(&inner, direction, middle).is_none() {
                    return None;
                }
                id
            },
            None => {
                if !self.game.has_room() {
                    return None;
                }
                self.game.add_inf_enter_for(block.block_no, entry.degree, block.hsv)
            },
        };
        let inner: Block = match self.game.cells()[id] {
            Cell::Block(b) => b,
            _ => return None,
        };
        let (pos, rest) = match land(&inner, direction, middle) {
            Some(x) => x,
            None => return None,
        };
        let key = TransferKey::Enter(block.block_no, direction, point);
        TransferCache::try_push_state(&mut self.transfer_cache.enter, entry, &key);
        self.transfer_cache.enter[i] = TransferState {
            point: middle,
            degree: entry.degree + 1,
            ..entry
        };
        Some(
            (
                MoveState {
                    cell_id: current.cell_id,
                    direction,
                    gpos: GlobalPos { block_id: id, pos },
                    fliph: entry.fliph,
                },
                rest,
            ),
        )
    }

    /// See [`SimView::enter_step`].
    fn enter_step(&mut self, current: MoveState, target_id: usize, enter_point: TransferPoint) -> (r:
        Option<(MoveState, TransferPoint)>)
        requires
            old(self)@.inv(),
            current.cell_id < old(self)@.game.cells.len(),
            target_id < old(self)@.game.cells.len(),
            enter_point.is_unit(),
        ensures
            match r {
                None => old(self)@.enter_step(current, target_id, enter_point) is None && final(self)@ == old(self)@,
                Some((landed, rest)) => old(self)@.enter_step(current, target_id, enter_point)
                    == Some((final(self)@, landed, rest)) && record_ok(
                    final(self)@.game.cells,
                    landed,
                ) && landed.gpos.block_id != ROOT && rest.is_unit(),
            },
            step_ok(old(self)@, false, final(self)@),
            final(self)@.move_stack == old(self)@.move_stack,
            *final(final(self).game) == *final(old(self).game),
    {
        let target = self.game.cells()[target_id];
        let heading = if target.fliph() {
            flip_heading(current.direction, enter_point)
        } else {
            (current.direction, enter_point)
        };
        let block = match self.block_to_enter(target_id) {
            Some(b) => b,
            None => return None,
        };
        if !block.can_enter() {
            return None;
        }
        let key = TransferKey::Enter(block.block_no, heading.0, heading.1);
        match TransferCache::find_state(&self.transfer_cache.enter, &key) {
            None => self.enter_first(current, block, heading.0, heading.1, target.fliph()),
            Some(i) => self.enter_again(current, block, heading.0, heading.1, i),
        }
    }

    /// Attempts to move the given cell towards the given direction.
    ///
    /// Returns true if the movement was successful.
    fn try_move(&mut self, cell_id: usize, direction: Direction, depth: usize) -> (ok: bool)
        requires
            old(self)@.inv(),
            cell_id < old(self)@.game.cells.len(),
            old(self)@.claims(cell_id),
        ensures
            step_ok(old(self)@, ok, final(self)@),
            (ok, final(self)@) == old(self)@.try_move(cell_id, direction, depth as nat),
            *final(final(self).game) == *final(old(self).game),
        decreases depth, 0nat,
    {
        proof {
            lemma_stack_position_from(self@.move_stack, cell_id, 0);
        }
        match self.check_cycle(cell_id, direction) {
            Some(Ok(i)) => {
                // The cell is in a cycle, and the cells in the cycle can move
                // together. So we can just update the move index.
                self.move_index = i;
                assert(self@.move_stack[i as int].cell_id == cell_id);
                assert(self@.move_stack.last().gpos == self@.place_of(cell_id));
                assert(self@.settled());
                return true;
            },
            Some(Err(())) => return false,
            None => (),
        }
        let current = MoveState::new(&self.game.cells()[cell_id], direction);
        if depth == 0 || current.gpos.block_id == ROOT {
            return false;
        }
        self.push_move(current);
        if self.try_exit(current, TransferPoint::middle(), depth - 1) {
            true
        } else {
            self.pop_move();
            false
        }
    }

    #[verifier::rlimit(60)]
    fn try_exit(&mut self, current: MoveState, exit_point: TransferPoint, depth: usize) -> (ok: bool)
        requires
            old(self)@.inv(),
            old(self)@.move_stack.len() >= 1,
            record_ok(old(self)@.game.cells, current),
            current.gpos.block_id != ROOT,
            exit_point.is_unit(),
        ensures
            step_ok(old(self)@, ok, final(self)@),
            (ok, final(self)@) == old(self)@.try_exit(current, exit_point, depth as nat),
            *final(final(self).game) == *final(old(self).game),
        decreases depth, 0nat,
    {
        if depth == 0 {
            return false;
        }
        let container: Block = match self.game.cells()[current.gpos.block_id] {
            Cell::Block(b) => b,
            _ => return false,
        };
        // first, try to move the cell in the given direction
        let next = MoveState {
            gpos: GlobalPos {
                block_id: current.gpos.block_id,
                pos: current.gpos.pos.towards(current.direction),
            },
            ..current
        };
        // if the new position is still in the same block, we're done
        if container.in_bounds(next.gpos.pos) {
            return self.try_interact_pos(next, exit_point, depth - 1);
        }
        // otherwise, we need to exit the block
        let ghost before = self@;
        match self.exit_step(next, exit_point) {
            None => false,
            Some((portal_id, out, point)) => {
                let ghost left = self@;
                // try again from the new exit
                if self.try_exit(out, point, depth - 1) {
                    proof {
                        lemma_steps(before, left, true, self@);
                    }
                    return true;
                }
                proof {
                    lemma_steps(before, left, false, self@);
                    lemma_record_extends(left.game, self@.game, out);
                }
                if self.game.config().shed {
                    let ghost failed = self@;
                    self.update_top(out);
                    let ok = self.try_move(portal_id, out.direction.opposite(), depth - 1);
                    proof {
                        lemma_steps(before, failed.with_top(out), ok, self@);
                    }
                    return ok;
                }
                false
            },
        }
    }

    /// Attempts to interact with the given position.
    ///
    /// Returns true if the occupation was successful.
    fn try_interact_pos(&mut self, current: MoveState, point: TransferPoint, depth: usize) -> (ok:
        bool)
        requires
            old(self)@.inv(),
            old(self)@.move_stack.len() >= 1,
            record_ok(old(self)@.game.cells, current),
            current.gpos.block_id != ROOT,
            point.is_unit(),
        ensures
            step_ok(old(self)@, ok, final(self)@),
            (ok, final(self)@) == old(self)@.try_interact_pos(current, point, depth as nat),
            *final(final(self).game) == *final(old(self).game),
        decreases depth, 0nat,
    {
        if depth == 0 {
            return false;
        }
        proof {
            lemma_find_from(self@.game.cells, Query::At(current.gpos), 0);
        }
        match self.game.find_cell(&Query::At(current.gpos)) {
            Some(target_id) => {
                // some cell exists at the target position
                // try to interact with it
                self.try_interact(current, target_id, point, depth - 1)
            },
            None => {
                // no cell exists at the target position
                // just walk up and take the position
                self.update_top(current);
                true
            },
        }
    }

    /// Attempts to simulate the interaction between the source cell and the
    /// target cell.
    ///
    /// The default attempt order is: push, enter, eat, possess.
    ///
    /// Returns true if the interaction was successful.
    fn try_interact(
        &mut self,
        current: MoveState,
        target_id: usize,
        point: TransferPoint,
        depth: usize,
    ) -> (ok: bool)
        requires
            old(self)@.inv(),
            old(self)@.move_stack.len() >= 1,
            record_ok(old(self)@.game.cells, current),
            target_id < old(self)@.game.cells.len(),
            old(self)@.place_of(target_id) == current.gpos,
            current.gpos.block_id != ROOT,
            point.is_unit(),
        ensures
            step_ok(old(self)@, ok, final(self)@),
            (ok, final(self)@) == old(self)@.try_interact(current, target_id, point, depth as nat),
            *final(final(self).game) == *final(old(self).game),
        decreases depth, 0nat,
    {
        if depth == 0 {
            return false;
        }
        let ghost before = self@;
        let ghost order = self@.game.attempt_order;
        let count = self.game.config().attempt_order.len();
        let mut i: usize = 0;
        while i < count
            invariant
                0 <= i <= count,
                count == order.len(),
                depth > 0,
                before == old(self)@,
                order == before.game.attempt_order,
                self@.game.attempt_order == order,
                step_ok(before, false, self@),
                record_ok(self@.game.cells, current),
                target_id < self@.game.cells.len(),
                self@.place_of(target_id) == current.gpos,
                current.gpos.block_id != ROOT,
                point.is_unit(),
                self@.move_stack.len() >= 1,
                before.try_actions(order, current, target_id, point, 0, (depth - 1) as nat)
                    == self@.try_actions(
                    order,
                    current,
                    target_id,
                    point,
                    i as nat,
                    (depth - 1) as nat,
                ),
                *final(self.game) == *final(old(self).game),
            decreases count - i,
        {
            let ghost here = self@;
            let action = self.game.config().attempt_order[i];
            let ok = match action {
                ActionType::Push => self.try_push(current, target_id, depth - 1),
                ActionType::Enter => {
                    if self.find_move(target_id, self.move_index).is_some() {
                        // entering a moving cell is not allowed
                        false
                    } else {
                        self.try_enter(current, target_id, point, depth - 1)
                    }
                },
                ActionType::Eat => self.try_eat(current, target_id, depth - 1),
                ActionType::Possess => self.try_possess(current.cell_id, target_id),
            };
            proof {
                lemma_steps(before, here, ok, self@);
                lemma_record_extends(here.game, self@.game, current);
            }
            if ok {
                return true;
            }
            i += 1;
        }
        false
    }

    #[verifier::rlimit(60)]
    fn try_push(&mut self, current: MoveState, target_id: usize, depth: usize) -> (ok: bool)
        requires
            old(self)@.inv(),
            old(self)@.move_stack.len() >= 1,
            record_ok(old(self)@.game.cells, current),
            target_id < old(self)@.game.cells.len(),
            old(self)@.place_of(target_id) == current.gpos,
            current.gpos.block_id != ROOT,
        ensures
            step_ok(old(self)@, ok, final(self)@),
            (ok, final(self)@) == old(self)@.try_push(current, target_id, depth as nat),
            *final(final(self).game) == *final(old(self).game),
        decreases depth, 0nat,
    {
        if depth == 0 {
            return false;
        }
        let ghost before = self@;
        // move the pusher to the new position
        self.update_top(current);
        let ghost committed = self@;
        let target = self.game.cells()[target_id];
        if !target.is_wall() {
            // try to move the pushee cell
            let ok = self.try_move(target_id, current.direction, depth - 1);
            proof {
                lemma_steps(before, committed, ok, self@);
            }
            return ok;
        }
        // walls can be pushed in a cycle (typically when the wall is possessed)
        proof {
            lemma_stack_position_from(self@.move_stack, target_id, 0);
        }
        if let Some(Ok(i)) = self.check_cycle(target_id, current.direction) {
            self.move_index = i;
            assert(self@.move_stack[i as int].cell_id == target_id);
            assert(self@.move_stack.last().gpos == current.gpos);
            assert(self@.settled());
            return true;
        }
        let parent_id = target.gpos().block_id;
        if parent_id == ROOT {
            return false;
        }
        let parent: Block = match self.game.cells()[parent_id] {
            Cell::Block(b) => b,
            _ => return false,
        };
        proof {
            lemma_find_from(self@.game.cells, Query::ExitOf(parent.block_no), 0);
        }
        // try to move the parent block of the wall
        match self.game.exit_id_for(&parent) {
            None => false,
            Some(exit_id) => {
                if !self.game.config().inner_push {
                    return false;
                }
                // even if the inner push succeeds, previous movements cannot be made
                let old_move_index = self.move_index;
                self.move_index = self.move_stack.len();
                let ghost inner = self@;
                let exit = self.game.cells()[exit_id];
                let direction = if exit.fliph() {
                    current.direction.mirror()
                } else {
                    current.direction
                };
                if self.try_move(exit_id, direction, depth - 1) {
                    return true;
                }
                // restore previous movements
                self.move_index = old_move_index;
                false
            },
        }
    }

    fn try_enter(
        &mut self,
        current: MoveState,
        target_id: usize,
        enter_point: TransferPoint,
        depth: usize,
    ) -> (ok: bool)
        requires
            old(self)@.inv(),
            old(self)@.move_stack.len() >= 1,
            current.cell_id < old(self)@.game.cells.len(),
            target_id < old(self)@.game.cells.len(),
            enter_point.is_unit(),
        ensures
            step_ok(old(self)@, ok, final(self)@),
            (ok, final(self)@) == old(self)@.try_enter(
                current,
                target_id,
                enter_point,
                depth as nat,
            ),
            *final(final(self).game) == *final(old(self).game),
        decreases depth, 0nat,
    {
        if depth == 0 {
            return false;
        }
        let ghost before = self@;
        match self.enter_step(current, target_id, enter_point) {
            None => false,
            Some((landed, rest)) => {
                let ghost entered = self@;
                // try to interact with the enter pos
                let ok = self.try_interact_pos(landed, rest, depth - 1);
                proof {
                    lemma_steps(before, entered, ok, self@);
                }
                ok
            },
        }
    }

    fn try_eat(&mut self, current: MoveState, target_id: usize, depth: usize) -> (ok: bool)
        requires
            old(self)@.inv(),
            old(self)@.move_stack.len() >= 1,
            record_ok(old(self)@.game.cells, current),
            target_id < old(self)@.game.cells.len(),
            old(self)@.place_of(target_id) == current.gpos,
            current.gpos.block_id != ROOT,
        ensures
            step_ok(old(self)@, ok, final(self)@),
            (ok, final(self)@) == old(self)@.try_eat(current, target_id, depth as nat),
            *final(final(self).game) == *final(old(self).game),
        decreases depth, 0nat,
    {
        if depth == 0 {
            return false;
        }
        let target = self.game.cells()[target_id];
        if target.is_wall() {
            return false;
        }
        // cycles are not allowed in eat
        if self.find_move(target_id, 0).is_some() {
            return false;
        }
        let ghost before = self@;
        // move the eater to the new position
        self.update_top(current);
        // try to let the eaten cell enter the eater cell
        let start = MoveState::new(&target, current.direction.opposite());
        proof {
            lemma_stack_position_from(before.move_stack, target_id, 0);
            lemma_stack_position_from(self@.move_stack, target_id, 0);
        }
        self.push_move(start);
        // When the eater changed its orientation on its way, the eaten cell
        // will change its own on the way into the eater, so it is mirrored
        // before it enters.
        let eaten = if current.fliph != self.game.cells()[current.cell_id].fliph() {
            MoveState { direction: start.direction.mirror(), fliph: !start.fliph, ..start }
        } else {
            start
        };
        if self.try_enter(eaten, current.cell_id, TransferPoint::middle(), depth - 1) {
            true
        } else {
            self.pop_move();
            false
        }
    }

    fn try_possess(&mut self, source_id: usize, target_id: usize) -> (ok: bool)
        requires
            old(self)@.inv(),
            target_id < old(self)@.game.cells.len(),
        ensures
            step_ok(old(self)@, ok, final(self)@),
            (ok, final(self)@) == old(self)@.try_possess(source_id, target_id),
            *final(final(self).game) == *final(old(self).game),
    {
        // only the current player can possess
        if source_id != self.game.player_ids()[self.player_index] {
            return false;
        }
        let target = self.game.cells()[target_id];
        if target.possessable() && !self.game.is_player(target_id) {
            self.game.set_player(self.player_index, target_id);
            // no cells can be moved
            self.move_index = self.move_stack.len();
            return true;
        }
        false
    }
}

/// Whether `current` is a move of a cell of the world of `s` to a place in it.
pub open spec fn placed_in(s: SimView, current: MoveState) -> bool {
    record_ok(s.game.cells, current)
}

} // verus!

verus! {

/// Steps compose: after a step that failed, whatever the next step keeps is
/// kept of both.
pub proof fn lemma_steps(a: SimView, b: SimView, ok: bool, c: SimView)
    requires
        step_ok(a, false, b),
        step_ok(b, ok, c),
    ensures
        step_ok(a, ok, c),
{
    assert forall|i: int| 0 <= i < a.game.cells.len() implies #[trigger] c.game.cells[i]
        == a.game.cells[i] by {
        assert(b.game.cells[i] == a.game.cells[i]);
    }
}

/// Moving a cell to a place in the world keeps the world well formed, and
/// every place in it a place.
pub proof fn lemma_move_wf(g: GameView, id: usize, gpos: GlobalPos, fliph: bool)
    requires
        g.wf(),
        id < g.cells.len(),
        placed(g.cells, gpos),
    ensures
        g.with_move(id, gpos, fliph).wf(),
        forall|r: MoveState| #[trigger]
            record_ok(g.cells, r) ==> record_ok(g.with_move(id, gpos, fliph).cells, r),
{
    let h = g.with_move(id, gpos, fliph);
    assert forall|p: GlobalPos| placed(g.cells, p) implies #[trigger] placed(h.cells, p) by {
        if p.block_id != ROOT {
            let c = g.cells[p.block_id as int];
            assert(h.cells[p.block_id as int] == if p.block_id == id {
                c.moved_to(gpos, fliph)
            } else {
                c
            });
        }
    }
    assert forall|i: int| 0 <= i < h.cells.len() implies {
        &&& (#[trigger] h.cells[i]).spec_id() == i
        &&& placed(h.cells, h.cells[i].spec_gpos())
        &&& (h.cells[i] matches Cell::Block(b) ==> (!b.filled ==> b.width >= 1 && b.height >= 1)
            && (!b.locked && !b.space ==> h.block_map.contains_key(b.block_no.0)))
        &&& (h.cells[i] matches Cell::Reference(r) ==> r.inf_exit is None
            ==> h.block_map.contains_key(r.target_no.0))
    } by {
        let c = g.cells[i];
        assert(placed(g.cells, c.spec_gpos()));
        assert(placed(h.cells, c.spec_gpos()));
        assert(placed(h.cells, gpos));
    }
    assert forall|no: i32| #[trigger] h.block_map.contains_key(no) implies h.block_map[no]
        < h.cells.len() && h.cells[h.block_map[no] as int] is Block
        && h.cells[h.block_map[no] as int]->Block_0.block_no.0 == no by {
        let c = g.cells[g.block_map[no] as int];
        assert(c is Block);
    }
    assert forall|r: MoveState| #[trigger] record_ok(g.cells, r) implies record_ok(h.cells, r) by {
        assert(placed(h.cells, r.gpos));
    }
}

/// A move that fits a world fits every world that extends it.
pub proof fn lemma_record_extends(a: GameView, b: GameView, record: MoveState)
    requires
        extends(a, b),
        record_ok(a.cells, record),
    ensures
        record_ok(b.cells, record),
{
    if record.gpos.block_id != ROOT {
        assert(b.cells[record.gpos.block_id as int] == a.cells[record.gpos.block_id as int]);
    }
}

} // verus!
