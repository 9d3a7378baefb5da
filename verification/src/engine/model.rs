//! The resolver as a mathematical function.
//!
//! A resolution works on a world, a stack of tentative moves, and a record of
//! the transfers that the move on top of the stack has made. Each step below
//! takes such a state and returns whether it succeeded, and the state after
//! it. Nothing moves in the world until a whole resolution has succeeded;
//! what a resolution may add to the world along the way are the cells that
//! stand for an endless ascent or descent.
//!
//! Every step takes a `fuel`: the depth to which steps may still nest. A
//! step that is out of fuel fails.

use vstd::prelude::*;

use super::game::{is_space_at, placed, ActionType, Block, BlockNo, Cell, GameView};
use super::moves::{position, CacheView, MoveState, TransferKey, TransferState};
use super::point::{flipped_heading, TransferPoint};
use super::utility::{Direction, GlobalPos, Pos, ROOT};

verus! {

/// The depth to which the steps of one resolution may nest.
pub const DEPTH_LIMIT: usize = 2000;

/// The state of a resolution.
pub struct SimView {
    pub game: GameView,
    /// The index of the player whose turn it is.
    pub player_index: usize,
    /// The tentative moves. The cell of the last one is the one that is
    /// travelling.
    pub move_stack: Seq<MoveState>,
    /// The moves from here on are carried out if the resolution succeeds.
    pub move_index: usize,
    /// The transfers of the move on top of the stack.
    pub cache: CacheView,
    /// The transfers of the moves below it, one entry for each move on the
    /// stack.
    pub saved: Seq<CacheView>,
}

/// Where a cell lands that enters `block` in `direction` at `point`, and the
/// point that is left over: on the edge that it crosses, at the coordinate
/// that the point gives.
pub open spec fn landing(block: Block, direction: Direction, point: TransferPoint) -> Option<
    (Pos, TransferPoint),
> {
    let side = if direction.is_vertical() {
        block.width
    } else {
        block.height
    };
    match point.entered(side as int) {
        None => None,
        Some((coord, rest)) => Some(
            (
                match direction {
                    Direction::Up => Pos(coord, 0),
                    Direction::Down => Pos(coord, (block.height - 1) as i32),
                    Direction::Left => Pos((block.width - 1) as i32, coord),
                    Direction::Right => Pos(0, coord),
                },
                rest,
            ),
        ),
    }
}

/// The index of the first move at or after `from` that is a move of `cell_id`.
pub open spec fn stack_position_from(stack: Seq<MoveState>, cell_id: usize, from: int) -> Option<
    int,
>
    decreases stack.len() - from,
{
    if from < 0 || from >= stack.len() {
        None
    } else if stack[from].cell_id == cell_id {
        Some(from)
    } else {
        stack_position_from(stack, cell_id, from + 1)
    }
}

/// What [`stack_position_from`] returns is an index of a move of the cell.
pub proof fn lemma_stack_position_from(stack: Seq<MoveState>, cell_id: usize, from: int)
    requires
        0 <= from,
    ensures
        match stack_position_from(stack, cell_id, from) {
            Some(i) => from <= i < stack.len() && stack[i].cell_id == cell_id,
            None => forall|k: int| from <= k < stack.len() ==> (#[trigger] stack[k]).cell_id != cell_id,
        },
    decreases stack.len() - from,
{
    if from < stack.len() && stack[from].cell_id != cell_id {
        lemma_stack_position_from(stack, cell_id, from + 1);
    }
}

/// The world after the moves of `stack` from `from` on were carried out, in
/// their order.
pub open spec fn committed(game: GameView, stack: Seq<MoveState>, from: int) -> GameView
    decreases stack.len() - from,
{
    if from < 0 || from >= stack.len() {
        game
    } else {
        committed(
            game.with_move(stack[from].cell_id, stack[from].gpos, stack[from].fliph),
            stack,
            from + 1,
        )
    }
}

/// `b` is `a` with cells added, and possibly with other players.
pub open spec fn extends(a: GameView, b: GameView) -> bool {
    &&& a.cells.len() <= b.cells.len()
    &&& forall|i: int| 0 <= i < a.cells.len() ==> #[trigger] b.cells[i] == a.cells[i]
    &&& b.goals == a.goals
    &&& b.block_map == a.block_map
    &&& b.attempt_order == a.attempt_order
    &&& b.shed == a.shed
    &&& b.inner_push == a.inner_push
    &&& b.player_ids.len() == a.player_ids.len()
}

/// What every step keeps, whether it succeeds or fails: the state stays
/// sound and the world only grows. A step that fails leaves the players, the
/// height of the stack and the index from which moves are carried out as
/// they were.
pub open spec fn step_ok(before: SimView, ok: bool, after: SimView) -> bool {
    &&& after.inv()
    &&& extends(before.game, after.game)
    &&& after.player_index == before.player_index
    &&& after.move_stack.len() >= before.move_stack.len()
    &&& before.game.positions_distinct() ==> after.game.positions_distinct()
    &&& before.game.players_possessable() ==> after.game.players_possessable()
    &&& forall|j: int|
        0 <= j < before.game.player_ids.len() && j != before.player_index
            ==> #[trigger] after.game.player_ids[j] == before.game.player_ids[j]
    &&& ok ==> after.settled()
    &&& !ok ==> {
        &&& after.move_stack.len() == before.move_stack.len()
        &&& after.move_index == before.move_index
        &&& after.game.player_ids == before.game.player_ids
        &&& forall|k: int|
            0 <= k < before.move_stack.len() - 1 ==> #[trigger] after.move_stack[k]
                == before.move_stack[k]
        &&& before.move_stack.len() > 0 ==> after.move_stack.last().cell_id
            == before.move_stack.last().cell_id
    }
}

/// A move of a cell that exists, to a place that exists.
pub open spec fn record_ok(cells: Seq<Cell>, record: MoveState) -> bool {
    record.cell_id < cells.len() && placed(cells, record.gpos)
}

impl SimView {
    /// The state in which the turn of player `player_index` starts.
    pub open spec fn fresh(game: GameView, player_index: usize) -> SimView {
        SimView {
            game,
            player_index,
            move_stack: Seq::empty(),
            move_index: 0,
            cache: CacheView::empty(),
            saved: Seq::empty(),
        }
    }

    /// What holds of the state between any two steps.
    pub open spec fn inv(self) -> bool {
        &&& self.game.wf()
        &&& self.player_index < self.game.player_ids.len()
        &&& self.move_index <= self.move_stack.len()
        &&& self.saved.len() == self.move_stack.len()
        &&& forall|i: int|
            0 <= i < self.move_stack.len() ==> record_ok(
                self.game.cells,
                #[trigger] self.move_stack[i],
            )
        &&& self.cache.wf()
        &&& forall|i: int| 0 <= i < self.saved.len() ==> (#[trigger] self.saved[i]).wf()
        &&& self.chained()
    }

    /// No cell has two moves on the stack; no move is a move of a cell of the
    /// top level, or a move to it; and each of the moves that will be carried
    /// out, but for the last, is a move to the place of the cell that moves
    /// next.
    pub open spec fn chained(self) -> bool {
        &&& forall|i: int, j: int|
            0 <= i < j < self.move_stack.len() ==> (#[trigger] self.move_stack[i]).cell_id != (
            #[trigger] self.move_stack[j]).cell_id
        &&& forall|i: int|
            0 <= i < self.move_stack.len() ==> (#[trigger] self.move_stack[i]).gpos.block_id
                != ROOT && self.place_of(self.move_stack[i].cell_id).block_id != ROOT
        &&& forall|k: int, l: int|
            self.move_index <= k && l == k + 1 && l < self.move_stack.len() ==> (
            #[trigger] self.move_stack[k]).gpos == self.place_of(
                (#[trigger] self.move_stack[l]).cell_id,
            )
    }

    /// Where the cell `cell_id` is.
    pub open spec fn place_of(self, cell_id: usize) -> GlobalPos {
        self.game.cells[cell_id as int].spec_gpos()
    }

    /// Whether the last move may be put on top of the stack as a move of the
    /// cell `cell_id`: the move below it, if it will be carried out, is a
    /// move to the place of that cell.
    pub open spec fn claims(self, cell_id: usize) -> bool {
        self.move_index >= self.move_stack.len() || self.move_stack.last().gpos == self.place_of(
            cell_id,
        )
    }

    /// The moves that will be carried out fit together: there is none, or the
    /// last of them is a move to a place where no cell is, or to the place
    /// of the cell that moves first.
    pub open spec fn settled(self) -> bool {
        self.move_index >= self.move_stack.len() || self.game.cell_id_at(
            self.move_stack.last().gpos,
        ) is None || self.move_stack.last().gpos == self.place_of(
            self.move_stack[self.move_index as int].cell_id,
        )
    }

    /// Whether a move of `cell_id` is on the stack.
    pub open spec fn on_stack(self, cell_id: usize) -> bool {
        stack_position_from(self.move_stack, cell_id, 0) is Some
    }

    /// Whether a move of `cell_id` is among those that will be carried out.
    pub open spec fn is_moving(self, cell_id: usize) -> bool {
        stack_position_from(self.move_stack, cell_id, self.move_index as int) is Some
    }

    /// Whether a move of `cell_id` is on the stack already, and if so,
    /// whether the cell can go along in `direction`: it can if its move is
    /// among those that will be carried out and has the same direction. The
    /// index of that move is then the result.
    pub open spec fn check_cycle(self, cell_id: usize, direction: Direction) -> Option<
        Result<usize, ()>,
    > {
        match stack_position_from(self.move_stack, cell_id, 0) {
            Some(i) => if i >= self.move_index && self.move_stack[i].direction == direction {
                Some(Ok(i as usize))
            } else {
                Some(Err(()))
            },
            None => None,
        }
    }

    /// The state after the move on top took the place and the orientation of
    /// `current`.
    pub open spec fn with_top(self, current: MoveState) -> SimView {
        if self.move_stack.len() > 0 {
            SimView {
                move_stack: self.move_stack.update(
                    self.move_stack.len() - 1,
                    self.move_stack.last().updated(current),
                ),
                ..self
            }
        } else {
            self
        }
    }

    /// The state after `record` was put on the stack: its transfers start
    /// empty, and those of the move below it are set aside.
    pub open spec fn pushed(self, record: MoveState) -> SimView {
        SimView {
            move_stack: self.move_stack.push(record),
            cache: CacheView::empty(),
            saved: self.saved.push(self.cache),
            ..self
        }
    }

    /// The state after the move on top was taken off the stack again.
    pub open spec fn popped(self) -> SimView {
        SimView {
            move_stack: self.move_stack.drop_last(),
            cache: self.saved.last(),
            saved: self.saved.drop_last(),
            ..self
        }
    }

    /// The state with another index from which moves are carried out.
    pub open spec fn with_index(self, move_index: usize) -> SimView {
        SimView { move_index, ..self }
    }

    /// The traveller after it passed `portal` at `point`.
    pub open spec fn through(
        portal: Cell,
        current: MoveState,
        point: TransferPoint,
        fliph: bool,
    ) -> (MoveState, TransferPoint) {
        let heading = if portal.spec_fliph() {
            flipped_heading(current.direction, point)
        } else {
            (current.direction, point)
        };
        (
            MoveState {
                cell_id: current.cell_id,
                direction: heading.0,
                gpos: portal.spec_gpos(),
                fliph: if portal.spec_fliph() {
                    !fliph
                } else {
                    fliph
                },
            },
            heading.1,
        )
    }

    /// The number under which a passage through `portal` is remembered.
    pub open spec fn context_no(portal: Cell, container: Block) -> BlockNo {
        match portal {
            Cell::Reference(r) => r.target_no,
            Cell::Block(b) => b.block_no,
            Cell::Wall(_) => container.block_no,
        }
    }

    /// A passage out through the portal `exit_id` that this move makes for
    /// the first time: it is remembered under the number `no`, and the
    /// traveller comes out of the portal at `point`. There is no passage
    /// through a portal that lives at the top level.
    pub open spec fn exit_first(self, current: MoveState, exit_id: usize, no: BlockNo, point: TransferPoint) -> Option<
        (SimView, usize, MoveState, TransferPoint),
    > {
        let portal = self.game.cells[exit_id as int];
        let probe = TransferState {
            block_no: no,
            direction: current.direction,
            point,
            degree: 0,
            fliph: current.fliph,
        };
        let out = Self::through(portal, current, point, current.fliph);
        if portal.spec_gpos().block_id == ROOT {
            None
        } else {
            Some(
                (
                    SimView {
                        cache: CacheView { exit: self.cache.exit.push(probe), ..self.cache },
                        ..self
                    },
                    exit_id,
                    out.0,
                    out.1,
                ),
            )
        }
    }

    /// A passage out that this move made before, as the transfer of index
    /// `i`: the ascent is endless. The transfers after that one are
    /// forgotten, and its degree goes up by one. The traveller comes out of
    /// the reference that stands for an endless ascent out of the block of
    /// number `no` at the degree that the transfer had; that reference is
    /// added to the world unless it is there. The traveller leaves at the
    /// point and in the orientation of the first passage.
    ///
    /// There is no passage if the degree cannot go up, if the world has no
    /// room for the reference, or if the reference lives at the top level.
    pub open spec fn exit_again(self, current: MoveState, no: BlockNo, i: int) -> Option<
        (SimView, usize, MoveState, TransferPoint),
    > {
        let entry = self.cache.exit[i];
        let bumped = CacheView {
            exit: self.cache.exit.take(i + 1).update(
                i,
                TransferState { degree: (entry.degree + 1) as u32, ..entry },
            ),
            ..self.cache
        };
        let found = self.game.inf_exit_of(no, entry.degree);
        let game = if found is None {
            self.game.with_inf_exit(no, entry.degree)
        } else {
            self.game
        };
        let id = if found is None {
            (self.game.cells.len() + 1) as usize
        } else {
            found.unwrap()
        };
        let out = Self::through(game.cells[id as int], current, entry.point, entry.fliph);
        if entry.degree == u32::MAX || (found is None && !self.game.has_room())
            || game.cells[id as int].spec_gpos().block_id == ROOT {
            None
        } else {
            Some((SimView { game, cache: bumped, ..self }, id, out.0, out.1))
        }
    }

    /// One passage out of a block. `current` is the traveller one step beyond
    /// the edge of its container, which it reached at `exit_point` within
    /// its cell. The result is the state after the passage, the id of the
    /// portal that the traveller came out of, the traveller at the place of
    /// that portal, and the point at which it left.
    ///
    /// The portal is the exit of the container. The passage is remembered
    /// under the number of the block that the portal stands for, and the
    /// direction. See [`SimView::exit_first`] for a passage that is made for
    /// the first time, and [`SimView::exit_again`] for one that was made
    /// before.
    ///
    /// There is no passage, and nothing changes, if the container has no
    /// exit, or if the point does not fit 32-bit fractions.
    pub open spec fn exit_step(self, current: MoveState, exit_point: TransferPoint) -> Option<
        (SimView, usize, MoveState, TransferPoint),
    > {
        let container = self.game.cells[current.gpos.block_id as int]->Block_0;
        let along = if current.direction.is_vertical() {
            (current.gpos.pos.0, container.width)
        } else {
            (current.gpos.pos.1, container.height)
        };
        match (self.game.exit_of(container), exit_point.exited(along.0 as int, along.1 as int)) {
            (Some(exit_id), Some(point)) => {
                let no = Self::context_no(self.game.cells[exit_id as int], container);
                match position(self.cache.exit, TransferKey::Exit(no, current.direction)) {
                    None => self.exit_first(current, exit_id, no, point),
                    Some(i) => self.exit_again(current, no, i),
                }
            },
            _ => None,
        }
    }

    /// The block that a traveller enters when it enters the cell `target_id`:
    /// none for a wall; the block itself, unless it is locked or lives in a
    /// space; for a reference, the block that it names, unless the reference
    /// stands for an endless ascent or lives in a space.
    pub open spec fn block_to_enter(self, target_id: usize) -> Option<Block> {
        match self.game.cells[target_id as int] {
            Cell::Wall(_) => None,
            Cell::Block(b) => if is_space_at(self.game.cells, b.gpos.block_id) || b.locked {
                None
            } else {
                Some(b)
            },
            Cell::Reference(r) => if r.inf_exit is Some || is_space_at(
                self.game.cells,
                r.gpos.block_id,
            ) {
                None
            } else {
                self.game.block_of(r.target_no)
            },
        }
    }

    /// A passage into `block` that this move makes for the first time, in
    /// `direction` at `point`: it is remembered, and the traveller lands on
    /// the edge that it crosses. `flips` says whether the cell that it
    /// entered through is flipped; the traveller then changes its
    /// orientation. There is no passage if the traveller has no place to
    /// land on.
    pub open spec fn enter_first(
        self,
        current: MoveState,
        block: Block,
        direction: Direction,
        point: TransferPoint,
        flips: bool,
    ) -> Option<(SimView, MoveState, TransferPoint)> {
        let probe = TransferState {
            block_no: block.block_no,
            direction,
            point,
            degree: 0,
            fliph: current.fliph,
        };
        match landing(block, direction, point) {
            None => None,
            Some((pos, rest)) => Some(
                (
                    SimView {
                        cache: CacheView { enter: self.cache.enter.push(probe), ..self.cache },
                        ..self
                    },
                    MoveState {
                        cell_id: current.cell_id,
                        direction,
                        gpos: GlobalPos { block_id: block.id, pos },
                        fliph: if flips {
                            !current.fliph
                        } else {
                            current.fliph
                        },
                    },
                    rest,
                ),
            ),
        }
    }

    /// A passage into `block` that this move made before, as the transfer of
    /// index `i`: the descent is endless. The transfers after that one are
    /// forgotten, its degree goes up by one and its point becomes the
    /// middle. The traveller enters the block that stands for an endless
    /// descent into `block` at the degree that the transfer had; that block
    /// is added to the world unless it is there. The traveller lands at the
    /// middle of the edge that it crosses, in the orientation of the first
    /// passage.
    ///
    /// There is no passage if the degree cannot go up, if the world has no
    /// room for the block, or if the block that is there is filled or has no
    /// place to land on.
    pub open spec fn enter_again(self, current: MoveState, block: Block, direction: Direction, i: int) -> Option<
        (SimView, MoveState, TransferPoint),
    > {
        let entry = self.cache.enter[i];
        let bumped = CacheView {
            enter: self.cache.enter.take(i + 1).update(
                i,
                TransferState {
                    point: TransferPoint::spec_middle(),
                    degree: (entry.degree + 1) as u32,
                    ..entry
                },
            ),
            ..self.cache
        };
        let found = self.game.inf_enter_of(block.block_no, entry.degree);
        let game = if found is None {
            self.game.with_inf_enter(block.block_no, entry.degree, block.hsv)
        } else {
            self.game
        };
        let id = if found is None {
            (self.game.cells.len() + 1) as usize
        } else {
            found.unwrap()
        };
        let inner = game.cells[id as int]->Block_0;
        match landing(inner, direction, TransferPoint::spec_middle()) {
            Some((pos, rest)) => if entry.degree == u32::MAX || (found is None
                && !self.game.has_room()) || inner.filled {
                None
            } else {
                Some(
                    (
                        SimView { game, cache: bumped, ..self },
                        MoveState {
                            cell_id: current.cell_id,
                            direction,
                            gpos: GlobalPos { block_id: id, pos },
                            fliph: entry.fliph,
                        },
                        rest,
                    ),
                )
            },
            None => None,
        }
    }

    /// One passage into the cell `target_id`, at `enter_point`. The result is
    /// the state after the passage, the traveller at the place where it
    /// lands, and the point that is left over.
    ///
    /// Where the cell is flipped, the traveller is mirrored first. The
    /// passage is remembered under the number of the block that is entered,
    /// the direction and the point. See [`SimView::enter_first`] for a
    /// passage that is made for the first time, and
    /// [`SimView::enter_again`] for one that was made before.
    ///
    /// There is no passage, and nothing changes, if there is no block to
    /// enter or if the block is filled.
    pub open spec fn enter_step(
        self,
        current: MoveState,
        target_id: usize,
        enter_point: TransferPoint,
    ) -> Option<(SimView, MoveState, TransferPoint)> {
        let target = self.game.cells[target_id as int];
        let heading = if target.spec_fliph() {
            flipped_heading(current.direction, enter_point)
        } else {
            (current.direction, enter_point)
        };
        match self.block_to_enter(target_id) {
            None => None,
            Some(block) => if block.filled {
                None
            } else {
                match position(
                    self.cache.enter,
                    TransferKey::Enter(block.block_no, heading.0, heading.1),
                ) {
                    None => self.enter_first(
                        current,
                        block,
                        heading.0,
                        heading.1,
                        target.spec_fliph(),
                    ),
                    Some(i) => self.enter_again(current, block, heading.0, i),
                }
            },
        }
    }

    /// The cell that moves when a wall is pushed from inside its block, and
    /// the direction in which it moves: the exit of the block that holds the
    /// wall, in the direction of the push as seen through that exit.
    pub open spec fn inner_push_target(self, wall_id: usize, direction: Direction) -> Option<
        (usize, Direction),
    > {
        let parent_id = self.game.cells[wall_id as int].spec_gpos().block_id;
        if parent_id == ROOT {
            None
        } else {
            match self.game.exit_of(self.game.cells[parent_id as int]->Block_0) {
                None => None,
                Some(exit_id) => Some(
                    (
                        exit_id,
                        if self.game.cells[exit_id as int].spec_fliph() {
                            direction.mirrored()
                        } else {
                            direction
                        },
                    ),
                ),
            }
        }
    }

    /// Tries to move the cell `cell_id` one step in `direction`.
    ///
    /// A cell that has a move on the stack already closes a cycle: that
    /// succeeds, and the moves from that one on are carried out, if that move
    /// is among those that will be carried out and has the same direction;
    /// else it fails. A cell at the top level does not move. Any other cell
    /// gets a move of its own on the stack and tries to leave its place; if
    /// it cannot, its move is taken off again.
    pub open spec fn try_move(self, cell_id: usize, direction: Direction, fuel: nat) -> (
        bool,
        SimView,
    )
        decreases fuel, 0nat,
    {
        match self.check_cycle(cell_id, direction) {
            Some(Ok(i)) => (true, self.with_index(i)),
            Some(Err(_)) => (false, self),
            None => {
                let current = MoveState::start(self.game.cells[cell_id as int], direction);
                if fuel == 0 || current.gpos.block_id == ROOT {
                    (false, self)
                } else {
                    let r = self.pushed(current).try_exit(
                        current,
                        TransferPoint::spec_middle(),
                        (fuel - 1) as nat,
                    );
                    if r.0 {
                        r
                    } else {
                        (false, r.1.popped())
                    }
                }
            },
        }
    }

    /// The traveller `current` goes one step in its direction. If that keeps
    /// it inside its container, it deals with what is there. Else it passes
    /// out of the container and goes on from the place of the portal. If that
    /// fails and the rules say that containers are shed, the traveller stays
    /// at the place of the portal and the portal moves the other way.
    pub open spec fn try_exit(self, current: MoveState, exit_point: TransferPoint, fuel: nat) -> (
        bool,
        SimView,
    )
        decreases fuel, 0nat,
    {
        let next = MoveState {
            gpos: GlobalPos {
                block_id: current.gpos.block_id,
                pos: current.gpos.pos.neighbour(current.direction),
            },
            ..current
        };
        if fuel == 0 {
            (false, self)
        } else if self.game.cells[current.gpos.block_id as int]->Block_0.contains(next.gpos.pos) {
            self.try_interact_pos(next, exit_point, (fuel - 1) as nat)
        } else {
            match self.exit_step(next, exit_point) {
                None => (false, self),
                Some((after, portal_id, out, point)) => {
                    let r = after.try_exit(out, point, (fuel - 1) as nat);
                    if r.0 || !r.1.game.shed {
                        r
                    } else {
                        r.1.with_top(out).try_move(
                            portal_id,
                            out.direction.reversed(),
                            (fuel - 1) as nat,
                        )
                    }
                },
            }
        }
    }

    /// The traveller takes the place `current.gpos` if it is free, and else
    /// deals with the cell that is there.
    pub open spec fn try_interact_pos(self, current: MoveState, point: TransferPoint, fuel: nat) -> (
        bool,
        SimView,
    )
        decreases fuel, 0nat,
    {
        if fuel == 0 {
            (false, self)
        } else {
            match self.game.cell_id_at(current.gpos) {
                Some(target_id) => self.try_interact(
                    current,
                    target_id,
                    point,
                    (fuel - 1) as nat,
                ),
                None => (true, self.with_top(current)),
            }
        }
    }

    /// The traveller deals with the cell `target_id` that is in its way: it
    /// tries the interactions in the order that the rules give, and succeeds
    /// with the first that does.
    pub open spec fn try_interact(
        self,
        current: MoveState,
        target_id: usize,
        point: TransferPoint,
        fuel: nat,
    ) -> (bool, SimView)
        decreases fuel, 0nat,
    {
        if fuel == 0 {
            (false, self)
        } else {
            self.try_actions(
                self.game.attempt_order,
                current,
                target_id,
                point,
                0,
                (fuel - 1) as nat,
            )
        }
    }

    /// The interactions of `order` from the one of index `from` on. A cell
    /// that is itself about to move is not entered.
    pub open spec fn try_actions(
        self,
        order: Seq<ActionType>,
        current: MoveState,
        target_id: usize,
        point: TransferPoint,
        from: nat,
        fuel: nat,
    ) -> (bool, SimView)
        decreases fuel, 1 + order.len() - from,
    {
        if from >= order.len() {
            (false, self)
        } else {
            let r = match order[from as int] {
                ActionType::Push => self.try_push(current, target_id, fuel),
                ActionType::Enter => if self.is_moving(target_id) {
                    (false, self)
                } else {
                    self.try_enter(current, target_id, point, fuel)
                },
                ActionType::Eat => self.try_eat(current, target_id, fuel),
                ActionType::Possess => self.try_possess(current.cell_id, target_id),
            };
            if r.0 {
                r
            } else {
                r.1.try_actions(order, current, target_id, point, from + 1, fuel)
            }
        }
    }

    /// The traveller pushes the cell `target_id`: it commits to the place
    /// next to it, and the cell has to move on in the same direction. A wall
    /// moves only where that closes a cycle; or, where the rules allow a push
    /// from inside, by moving the block that holds it, and then nothing that
    /// was to move before moves.
    pub open spec fn try_push(self, current: MoveState, target_id: usize, fuel: nat) -> (
        bool,
        SimView,
    )
        decreases fuel, 0nat,
    {
        let committed = self.with_top(current);
        if fuel == 0 {
            (false, self)
        } else if !(committed.game.cells[target_id as int] is Wall) {
            committed.try_move(target_id, current.direction, (fuel - 1) as nat)
        } else {
            match (
                committed.check_cycle(target_id, current.direction),
                committed.inner_push_target(target_id, current.direction),
            ) {
                (Some(Ok(i)), _) => (true, committed.with_index(i)),
                (_, Some((exit_id, direction))) => if committed.game.inner_push {
                    let r = committed.with_index(committed.move_stack.len() as usize).try_move(
                        exit_id,
                        direction,
                        (fuel - 1) as nat,
                    );
                    if r.0 {
                        r
                    } else {
                        (false, r.1.with_index(committed.move_index))
                    }
                } else {
                    (false, committed)
                },
                _ => (false, committed),
            }
        }
    }

    /// The traveller enters the cell `target_id` at `enter_point`, and deals
    /// with what is at the place where it lands.
    pub open spec fn try_enter(
        self,
        current: MoveState,
        target_id: usize,
        enter_point: TransferPoint,
        fuel: nat,
    ) -> (bool, SimView)
        decreases fuel, 0nat,
    {
        if fuel == 0 {
            (false, self)
        } else {
            match self.enter_step(current, target_id, enter_point) {
                None => (false, self),
                Some((after, landed, rest)) => after.try_interact_pos(
                    landed,
                    rest,
                    (fuel - 1) as nat,
                ),
            }
        }
    }

    /// The traveller eats the cell `target_id`: it commits to the place of
    /// that cell, and the cell has to enter the traveller, against the
    /// direction of the travel. A wall is not eaten, nor a cell that has a
    /// move on the stack. Where the traveller changed its orientation on the
    /// way, the eaten cell is mirrored before it enters.
    pub open spec fn try_eat(self, current: MoveState, target_id: usize, fuel: nat) -> (
        bool,
        SimView,
    )
        decreases fuel, 0nat,
    {
        let committed = self.with_top(current);
        let start = MoveState::start(
            self.game.cells[target_id as int],
            current.direction.reversed(),
        );
        let eaten = if current.fliph != self.game.cells[current.cell_id as int].spec_fliph() {
            MoveState { direction: start.direction.mirrored(), fliph: !start.fliph, ..start }
        } else {
            start
        };
        if fuel == 0 || self.game.cells[target_id as int] is Wall || self.on_stack(target_id) {
            (false, self)
        } else {
            let r = committed.pushed(start).try_enter(
                eaten,
                current.cell_id,
                TransferPoint::spec_middle(),
                (fuel - 1) as nat,
            );
            if r.0 {
                r
            } else {
                (false, r.1.popped())
            }
        }
    }

    /// The player whose turn it is becomes the cell `target_id`, if the cell
    /// `source_id` is that player and the target can be possessed and is no
    /// player yet. Then nothing moves in this turn.
    pub open spec fn try_possess(self, source_id: usize, target_id: usize) -> (bool, SimView) {
        if self.player_index < self.game.player_ids.len() && source_id
            == self.game.player_ids[self.player_index as int]
            && self.game.cells[target_id as int].spec_possessable() && !self.game.is_player(
            target_id,
        ) {
            (
                true,
                SimView {
                    game: self.game.with_player(self.player_index as int, target_id),
                    move_index: self.move_stack.len() as usize,
                    ..self
                },
            )
        } else {
            (false, self)
        }
    }
}

/// The world after the turn of one player: the player tries to move in
/// `direction`, and if that succeeds, the moves that the resolution settled on
/// are carried out.
pub open spec fn turn(game: GameView, player_index: usize, direction: Direction) -> GameView {
    let r = SimView::fresh(game, player_index).try_move(
        game.player_ids[player_index as int],
        direction,
        DEPTH_LIMIT as nat,
    );
    if r.0 {
        committed(r.1.game, r.1.move_stack, r.1.move_index as int)
    } else {
        r.1.game
    }
}

/// The world after the players from `from` up to `count` had their turn, in
/// their order.
pub open spec fn played_from(game: GameView, direction: Direction, from: nat, count: nat) -> GameView
    decreases count - from,
{
    if from >= count {
        game
    } else {
        played_from(turn(game, from as usize, direction), direction, from + 1, count)
    }
}

/// The world after one press of `direction`: every player has its turn.
pub open spec fn played(game: GameView, direction: Direction) -> GameView {
    played_from(game, direction, 0, game.player_ids.len())
}

} // verus!
