//! What holds of the resolver, proved of its model.

use vstd::prelude::*;

use super::fraction::lemma_lowest_terms_fixed;
use super::game::{
    find_from, lemma_find_from, space_center, ActionType, Block, BlockNo, Cell, GameView,
    Query,
};
use super::model::{
    committed, extends, lemma_stack_position_from, played, stack_position_from, turn, SimView,
    DEPTH_LIMIT,
};
use super::moves::MoveState;
use super::point::{lemma_constants, TransferPoint};
use super::utility::{Direction, GlobalPos, Pos, ROOT};

verus! {

/// In a world whose positions are distinct, two cells at one place inside a
/// block are one cell.
pub proof fn lemma_same_place(g: GameView, x: int, y: int)
    requires
        g.positions_distinct(),
        0 <= x < g.cells.len(),
        0 <= y < g.cells.len(),
        g.cells[x].spec_gpos() == g.cells[y].spec_gpos(),
        g.cells[x].spec_gpos().block_id != ROOT,
    ensures
        x == y,
{
    if x < y {
        assert(g.cells[x].spec_gpos() == g.cells[y].spec_gpos());
    } else if y < x {
        assert(g.cells[y].spec_gpos() == g.cells[x].spec_gpos());
    }
}

/// Carrying out moves of distinct cells moves each of those cells to where
/// its move says, and leaves every other cell, the goals, the players and
/// the rules as they are.
pub proof fn lemma_committed(game: GameView, stack: Seq<MoveState>, from: int)
    requires
        0 <= from <= stack.len(),
        game.cells.len() <= usize::MAX,
        forall|i: int| from <= i < stack.len() ==> (#[trigger] stack[i]).cell_id < game.cells.len(),
        forall|i: int, j: int|
            from <= i < j < stack.len() ==> (#[trigger] stack[i]).cell_id != (#[trigger] stack[j]).cell_id,
    ensures
        committed(game, stack, from).cells.len() == game.cells.len(),
        committed(game, stack, from).goals == game.goals,
        committed(game, stack, from).player_ids == game.player_ids,
        committed(game, stack, from).block_map == game.block_map,
        committed(game, stack, from).attempt_order == game.attempt_order,
        committed(game, stack, from).shed == game.shed,
        committed(game, stack, from).inner_push == game.inner_push,
        forall|c: int|
            0 <= c < game.cells.len() ==> #[trigger] committed(game, stack, from).cells[c] == (
            match stack_position_from(stack, c as usize, from) {
                Some(k) => game.cells[c].moved_to(stack[k].gpos, stack[k].fliph),
                None => game.cells[c],
            }),
    decreases stack.len() - from,
{
    if from < stack.len() {
        let first = stack[from];
        let next = game.with_move(first.cell_id, first.gpos, first.fliph);
        lemma_committed(next, stack, from + 1);
        let done = committed(game, stack, from);
        assert(done == committed(next, stack, from + 1));
        assert forall|c: int| 0 <= c < game.cells.len() implies #[trigger] done.cells[c] == (
        match stack_position_from(stack, c as usize, from) {
            Some(k) => game.cells[c].moved_to(stack[k].gpos, stack[k].fliph),
            None => game.cells[c],
        }) by {
            lemma_stack_position_from(stack, c as usize, from + 1);
            if c == first.cell_id {
                assert(stack_position_from(stack, c as usize, from) == Some(from));
                assert(stack_position_from(stack, c as usize, from + 1) is None);
            } else {
                assert(stack_position_from(stack, c as usize, from) == stack_position_from(
                    stack,
                    c as usize,
                    from + 1,
                ));
                assert(next.cells[c] == game.cells[c]);
            }
        }
    }
}

/// Where the cell `c` is after the moves of `s` that will be carried out.
pub open spec fn place_after(s: SimView, c: int) -> super::utility::GlobalPos {
    match stack_position_from(s.move_stack, c as usize, s.move_index as int) {
        Some(k) => s.move_stack[k].gpos,
        None => s.game.cells[c].spec_gpos(),
    }
}

/// Two cells are not at one place after the moves of a resolution that
/// succeeded, if no two cells were at one place before.
proof fn lemma_places_after(s: SimView, a: int, b: int)
    requires
        s.inv(),
        s.settled(),
        s.game.positions_distinct(),
        0 <= a < s.game.cells.len(),
        0 <= b < s.game.cells.len(),
        a != b,
        place_after(s, a) == place_after(s, b),
        stack_position_from(s.move_stack, a as usize, s.move_index as int) is Some,
    ensures
        place_after(s, a).block_id == ROOT,
{
    let stack = s.move_stack;
    let m = s.move_index as int;
    let n = stack.len() - 1;
    lemma_stack_position_from(stack, a as usize, m);
    lemma_stack_position_from(stack, b as usize, m);
    let k = stack_position_from(stack, a as usize, m).unwrap();
    assert(stack[k].cell_id == a);
    // the place that the move of `a` goes to is the place of a cell that
    // moves, or it is free
    let pb = stack_position_from(stack, b as usize, m);
    if k < n {
        let l = k + 1;
        let c = stack[l].cell_id;
        assert(stack[k].gpos == s.place_of(c));
        assert(s.place_of(c).block_id != ROOT);
        match pb {
            None => {
                lemma_same_place(s.game, b, c as int);
                assert(stack[l].cell_id == b);
                assert(false);
            },
            Some(j) => {
                assert(stack[j].cell_id == b);
                if j < n {
                    let j1 = j + 1;
                    let d = stack[j1].cell_id;
                    assert(stack[j].gpos == s.place_of(d));
                    lemma_same_place(s.game, c as int, d as int);
                    if l < j1 {
                        assert(stack[l].cell_id != stack[j1].cell_id);
                    } else if j1 < l {
                        assert(stack[j1].cell_id != stack[l].cell_id);
                    } else {
                        // k == j, so a == b
                        assert(false);
                    }
                } else {
                    // the move of `b` is the last one
                    lemma_find_from(s.game.cells, Query::At(stack[n].gpos), 0);
                    if s.game.cell_id_at(stack[n].gpos) is None {
                        assert(s.game.cells[c as int].answers(Query::At(stack[n].gpos)));
                        assert(false);
                    } else {
                        let first = stack[m].cell_id;
                        assert(stack[n].gpos == s.place_of(first));
                        lemma_same_place(s.game, c as int, first as int);
                        assert(m < l);
                        assert(stack[m].cell_id != stack[l].cell_id);
                    }
                }
            },
        }
    } else {
        // the move of `a` is the last one
        lemma_find_from(s.game.cells, Query::At(stack[n].gpos), 0);
        let first = stack[m].cell_id;
        match pb {
            None => {
                if s.game.cell_id_at(stack[n].gpos) is None {
                    assert(s.game.cells[b].answers(Query::At(stack[n].gpos)));
                    assert(false);
                } else {
                    assert(stack[n].gpos == s.place_of(first));
                    assert(s.place_of(first).block_id != ROOT);
                    lemma_same_place(s.game, b, first as int);
                    assert(stack[m].cell_id == b);
                    assert(false);
                }
            },
            Some(j) => {
                assert(stack[j].cell_id == b);
                assert(j < n);
                let j1 = j + 1;
                let d = stack[j1].cell_id;
                assert(stack[j].gpos == s.place_of(d));
                assert(s.place_of(d).block_id != ROOT);
                if s.game.cell_id_at(stack[n].gpos) is None {
                    assert(s.game.cells[d as int].answers(Query::At(stack[n].gpos)));
                    assert(false);
                } else {
                    assert(stack[n].gpos == s.place_of(first));
                    lemma_same_place(s.game, d as int, first as int);
                    assert(m < j1);
                    assert(stack[m].cell_id != stack[j1].cell_id);
                }
            },
        }
    }
}

/// The moves of a resolution that succeeded leave no two cells at one place,
/// if no two cells were at one place before.
pub proof fn lemma_commit_distinct(s: SimView)
    requires
        s.inv(),
        s.settled(),
        s.game.positions_distinct(),
    ensures
        committed(s.game, s.move_stack, s.move_index as int).positions_distinct(),
{
    let done = committed(s.game, s.move_stack, s.move_index as int);
    lemma_committed(s.game, s.move_stack, s.move_index as int);
    assert forall|i: int, j: int|
        0 <= i < j < done.cells.len() && (#[trigger] done.cells[i]).spec_gpos() == (
        #[trigger] done.cells[j]).spec_gpos() implies done.cells[i].spec_gpos().block_id
        == ROOT by {
        assert(done.cells[i].spec_gpos() == place_after(s, i));
        assert(done.cells[j].spec_gpos() == place_after(s, j));
        if stack_position_from(s.move_stack, i as usize, s.move_index as int) is Some {
            lemma_places_after(s, i, j);
        } else if stack_position_from(s.move_stack, j as usize, s.move_index as int) is Some {
            lemma_places_after(s, j, i);
        } else {
            assert(s.game.cells[i].spec_gpos() == s.game.cells[j].spec_gpos());
        }
    }
}

/// Carrying moves out keeps every player possessable.
pub proof fn lemma_commit_players(s: SimView)
    requires
        s.inv(),
        s.game.players_possessable(),
    ensures
        committed(s.game, s.move_stack, s.move_index as int).players_possessable(),
{
    let done = committed(s.game, s.move_stack, s.move_index as int);
    lemma_committed(s.game, s.move_stack, s.move_index as int);
    assert forall|j: int| 0 <= j < done.player_ids.len() implies #[trigger] done.player_ids[j]
        < done.cells.len() && done.cells[done.player_ids[j] as int].spec_possessable() by {
        let c = s.game.player_ids[j] as int;
        assert(s.game.cells[c].spec_possessable());
        assert(done.cells[c].spec_possessable() == s.game.cells[c].spec_possessable());
    }
}

/// What a step does to the world: it may add cells, and if it succeeds, it
/// may change who the player is whose turn it is. Nothing else changes.
pub open spec fn grows(before: SimView, ok: bool, after: SimView) -> bool {
    &&& extends(before.game, after.game)
    &&& after.player_index == before.player_index
    &&& !ok ==> after.game.player_ids == before.game.player_ids
    &&& forall|j: int|
        0 <= j < before.game.player_ids.len() && j != before.player_index
            ==> #[trigger] after.game.player_ids[j] == before.game.player_ids[j]
}

/// What steps do to the world adds up.
pub proof fn lemma_grows(a: SimView, b: SimView, ok: bool, c: SimView)
    requires
        grows(a, false, b),
        grows(b, ok, c),
    ensures
        grows(a, ok, c),
{
    assert forall|i: int| 0 <= i < a.game.cells.len() implies #[trigger] c.game.cells[i]
        == a.game.cells[i] by {
        assert(b.game.cells[i] == a.game.cells[i]);
    }
}

/// A passage out of a block adds cells to the world at most.
pub proof fn lemma_exit_step_world(s: SimView, current: MoveState, point: TransferPoint)
    ensures
        s.exit_step(current, point) matches Some(r) ==> grows(s, false, r.0)
            && r.0.move_stack == s.move_stack && r.0.move_index == s.move_index && r.0.player_index
            == s.player_index,
{
}

/// A passage into a block adds cells to the world at most.
pub proof fn lemma_enter_step_world(
    s: SimView,
    current: MoveState,
    target_id: usize,
    point: TransferPoint,
)
    ensures
        s.enter_step(current, target_id, point) matches Some(r) ==> grows(s, false, r.0)
            && r.0.move_stack == s.move_stack && r.0.move_index == s.move_index && r.0.player_index
            == s.player_index,
{
}

/// See [`lemma_world`].
pub proof fn lemma_try_move_world(s: SimView, cell_id: usize, direction: Direction, fuel: nat)
    ensures
        grows(s, s.try_move(cell_id, direction, fuel).0, s.try_move(cell_id, direction, fuel).1),
    decreases fuel, 0nat,
{
    let current = MoveState::start(s.game.cells[cell_id as int], direction);
    if s.check_cycle(cell_id, direction) is None && fuel != 0 && current.gpos.block_id != ROOT {
        lemma_try_exit_world(
            s.pushed(current),
            current,
            TransferPoint::spec_middle(),
            (fuel - 1) as nat,
        );
    }
}

/// See [`lemma_world`].
pub proof fn lemma_try_exit_world(s: SimView, current: MoveState, point: TransferPoint, fuel: nat)
    ensures
        grows(s, s.try_exit(current, point, fuel).0, s.try_exit(current, point, fuel).1),
    decreases fuel, 0nat,
{
    let next = MoveState {
        gpos: GlobalPos {
            block_id: current.gpos.block_id,
            pos: current.gpos.pos.neighbour(current.direction),
        },
        ..current
    };
    if fuel != 0 {
        if s.game.cells[current.gpos.block_id as int]->Block_0.contains(next.gpos.pos) {
            lemma_try_interact_pos_world(s, next, point, (fuel - 1) as nat);
        } else {
            lemma_exit_step_world(s, next, point);
            match s.exit_step(next, point) {
                None => {},
                Some((after, portal_id, out, p)) => {
                    lemma_try_exit_world(after, out, p, (fuel - 1) as nat);
                    let r = after.try_exit(out, p, (fuel - 1) as nat);
                    lemma_grows(s, after, r.0, r.1);
                    if !(r.0 || !r.1.game.shed) {
                        lemma_try_move_world(
                            r.1.with_top(out),
                            portal_id,
                            out.direction.reversed(),
                            (fuel - 1) as nat,
                        );
                        let t = r.1.with_top(out).try_move(
                            portal_id,
                            out.direction.reversed(),
                            (fuel - 1) as nat,
                        );
                        lemma_grows(s, r.1, t.0, t.1);
                    }
                },
            }
        }
    }
}

/// See [`lemma_world`].
pub proof fn lemma_try_interact_pos_world(
    s: SimView,
    current: MoveState,
    point: TransferPoint,
    fuel: nat,
)
    ensures
        grows(
            s,
            s.try_interact_pos(current, point, fuel).0,
            s.try_interact_pos(current, point, fuel).1,
        ),
    decreases fuel, 0nat,
{
    if fuel != 0 {
        match s.game.cell_id_at(current.gpos) {
            Some(target_id) => {
                lemma_try_interact_world(s, current, target_id, point, (fuel - 1) as nat);
            },
            None => {},
        }
    }
}

/// See [`lemma_world`].
pub proof fn lemma_try_interact_world(
    s: SimView,
    current: MoveState,
    target_id: usize,
    point: TransferPoint,
    fuel: nat,
)
    ensures
        grows(
            s,
            s.try_interact(current, target_id, point, fuel).0,
            s.try_interact(current, target_id, point, fuel).1,
        ),
    decreases fuel, 0nat,
{
    if fuel != 0 {
        lemma_try_actions_world(
            s,
            s.game.attempt_order,
            current,
            target_id,
            point,
            0,
            (fuel - 1) as nat,
        );
    }
}

/// See [`lemma_world`].
pub proof fn lemma_try_actions_world(
    s: SimView,
    order: Seq<ActionType>,
    current: MoveState,
    target_id: usize,
    point: TransferPoint,
    from: nat,
    fuel: nat,
)
    ensures
        grows(
            s,
            s.try_actions(order, current, target_id, point, from, fuel).0,
            s.try_actions(order, current, target_id, point, from, fuel).1,
        ),
    decreases fuel, 1 + order.len() - from,
{
    if from < order.len() {
        let r = match order[from as int] {
            ActionType::Push => {
                lemma_try_push_world(s, current, target_id, fuel);
                s.try_push(current, target_id, fuel)
            },
            ActionType::Enter => if s.is_moving(target_id) {
                (false, s)
            } else {
                lemma_try_enter_world(s, current, target_id, point, fuel);
                s.try_enter(current, target_id, point, fuel)
            },
            ActionType::Eat => {
                lemma_try_eat_world(s, current, target_id, fuel);
                s.try_eat(current, target_id, fuel)
            },
            ActionType::Possess => s.try_possess(current.cell_id, target_id),
        };
        if !r.0 {
            lemma_try_actions_world(r.1, order, current, target_id, point, from + 1, fuel);
            let t = r.1.try_actions(order, current, target_id, point, from + 1, fuel);
            lemma_grows(s, r.1, t.0, t.1);
        }
    }
}

/// See [`lemma_world`].
pub proof fn lemma_try_push_world(s: SimView, current: MoveState, target_id: usize, fuel: nat)
    ensures
        grows(s, s.try_push(current, target_id, fuel).0, s.try_push(current, target_id, fuel).1),
    decreases fuel, 0nat,
{
    let committed = s.with_top(current);
    if fuel != 0 {
        if !(committed.game.cells[target_id as int] is Wall) {
            lemma_try_move_world(committed, target_id, current.direction, (fuel - 1) as nat);
        } else {
            match (
                committed.check_cycle(target_id, current.direction),
                committed.inner_push_target(target_id, current.direction),
            ) {
                (Some(Ok(i)), _) => {},
                (_, Some((exit_id, direction))) => {
                    if committed.game.inner_push {
                        lemma_try_move_world(
                            committed.with_index(committed.move_stack.len() as usize),
                            exit_id,
                            direction,
                            (fuel - 1) as nat,
                        );
                    }
                },
                _ => {},
            }
        }
    }
}

/// See [`lemma_world`].
pub proof fn lemma_try_enter_world(
    s: SimView,
    current: MoveState,
    target_id: usize,
    point: TransferPoint,
    fuel: nat,
)
    ensures
        grows(
            s,
            s.try_enter(current, target_id, point, fuel).0,
            s.try_enter(current, target_id, point, fuel).1,
        ),
    decreases fuel, 0nat,
{
    if fuel != 0 {
        lemma_enter_step_world(s, current, target_id, point);
        match s.enter_step(current, target_id, point) {
            None => {},
            Some((after, landed, rest)) => {
                lemma_try_interact_pos_world(after, landed, rest, (fuel - 1) as nat);
                let r = after.try_interact_pos(landed, rest, (fuel - 1) as nat);
                lemma_grows(s, after, r.0, r.1);
            },
        }
    }
}

/// See [`lemma_world`].
pub proof fn lemma_try_eat_world(s: SimView, current: MoveState, target_id: usize, fuel: nat)
    ensures
        grows(s, s.try_eat(current, target_id, fuel).0, s.try_eat(current, target_id, fuel).1),
    decreases fuel, 0nat,
{
    let committed = s.with_top(current);
    let start = MoveState::start(s.game.cells[target_id as int], current.direction.reversed());
    let eaten = if current.fliph != s.game.cells[current.cell_id as int].spec_fliph() {
        MoveState { direction: start.direction.mirrored(), fliph: !start.fliph, ..start }
    } else {
        start
    };
    if !(fuel == 0 || s.game.cells[target_id as int] is Wall || s.on_stack(target_id)) {
        lemma_try_enter_world(
            committed.pushed(start),
            eaten,
            current.cell_id,
            TransferPoint::spec_middle(),
            (fuel - 1) as nat,
        );
    }
}

/// Whatever a player tries, the cells that were in the world stay as they
/// are until the moves are carried out, and so do the goals, the block map
/// and the rules. An attempt may add cells. One that fails leaves the players
/// as they were: if it added no cell, the world is what it was.
pub proof fn lemma_world(s: SimView, cell_id: usize, direction: Direction, fuel: nat)
    ensures
        extends(s.game, s.try_move(cell_id, direction, fuel).1.game),
        !s.try_move(cell_id, direction, fuel).0 ==> s.try_move(
            cell_id,
            direction,
            fuel,
        ).1.game.player_ids == s.game.player_ids,
        !s.try_move(cell_id, direction, fuel).0 && s.try_move(
            cell_id,
            direction,
            fuel,
        ).1.game.cells.len() == s.game.cells.len() ==> s.try_move(cell_id, direction, fuel).1.game
            == s.game,
{
    lemma_try_move_world(s, cell_id, direction, fuel);
    let after = s.try_move(cell_id, direction, fuel).1.game;
    if after.cells.len() == s.game.cells.len() {
        assert(after.cells =~= s.game.cells);
    }
}

/// Carrying moves out changes no player.
pub proof fn lemma_committed_players(game: GameView, stack: Seq<MoveState>, from: int)
    ensures
        committed(game, stack, from).player_ids == game.player_ids,
    decreases stack.len() - from,
{
    if 0 <= from < stack.len() {
        lemma_committed_players(
            game.with_move(stack[from].cell_id, stack[from].gpos, stack[from].fliph),
            stack,
            from + 1,
        );
    }
}

/// The turn of one player leaves every other player who that player was: the
/// players keep their order, but for the one whose turn it is, who may have
/// become another cell.
pub proof fn lemma_turn_players(game: GameView, player_index: usize, direction: Direction)
    ensures
        turn(game, player_index, direction).player_ids.len() == game.player_ids.len(),
        forall|j: int|
            0 <= j < game.player_ids.len() && j != player_index ==> #[trigger] turn(
                game,
                player_index,
                direction,
            ).player_ids[j] == game.player_ids[j],
{
    let s = SimView::fresh(game, player_index);
    let r = s.try_move(game.player_ids[player_index as int], direction, DEPTH_LIMIT as nat);
    lemma_try_move_world(s, game.player_ids[player_index as int], direction, DEPTH_LIMIT as nat);
    lemma_committed_players(r.1.game, r.1.move_stack, r.1.move_index as int);
}

/// A turn in which the player could not move, and which added no cell to
/// the world, leaves the world as it was; and the same press, made again,
/// fails again.
pub proof fn lemma_failed_turn_repeats(game: GameView, player_index: usize, direction: Direction)
    requires
        !SimView::fresh(game, player_index).try_move(
            game.player_ids[player_index as int],
            direction,
            DEPTH_LIMIT as nat,
        ).0,
        SimView::fresh(game, player_index).try_move(
            game.player_ids[player_index as int],
            direction,
            DEPTH_LIMIT as nat,
        ).1.game.cells.len() == game.cells.len(),
    ensures
        turn(game, player_index, direction) == game,
        !SimView::fresh(turn(game, player_index, direction), player_index).try_move(
            turn(game, player_index, direction).player_ids[player_index as int],
            direction,
            DEPTH_LIMIT as nat,
        ).0,
{
    lemma_world(
        SimView::fresh(game, player_index),
        game.player_ids[player_index as int],
        direction,
        DEPTH_LIMIT as nat,
    );
}

/// The world after a sequence of presses.
pub open spec fn played_all(game: GameView, presses: Seq<Direction>) -> GameView
    decreases presses.len(),
{
    if presses.len() == 0 {
        game
    } else {
        played(played_all(game, presses.drop_last()), presses.last())
    }
}

/// The world after a sequence of presses is a function of the world before
/// and of the presses: equal worlds and equal presses give equal worlds.
pub proof fn lemma_deterministic(a: GameView, b: GameView, presses: Seq<Direction>, again: Seq<Direction>)
    requires
        a == b,
        presses =~= again,
    ensures
        played_all(a, presses) == played_all(b, again),
{
}

/// A cell at the edge of a block that has no exit cannot move across that
/// edge, and the attempt leaves the state as it was.
pub proof fn lemma_no_exit(s: SimView, cell_id: usize, direction: Direction, fuel: nat)
    requires
        !s.on_stack(cell_id),
        s.saved.len() == s.move_stack.len(),
        s.place_of(cell_id).block_id != ROOT,
        !s.game.cells[s.place_of(cell_id).block_id as int]->Block_0.contains(
            s.place_of(cell_id).pos.neighbour(direction),
        ),
        s.game.exit_of(s.game.cells[s.place_of(cell_id).block_id as int]->Block_0) is None,
    ensures
        s.try_move(cell_id, direction, fuel) == (false, s),
{
    let current = MoveState::start(s.game.cells[cell_id as int], direction);
    let pushed = s.pushed(current);
    assert(pushed.popped().move_stack =~= s.move_stack);
    assert(pushed.popped().saved =~= s.saved);
    assert(pushed.popped() == s);
}

/// The stack position of a cell does not depend on where the move on top
/// goes.
pub proof fn lemma_with_top_position(s: SimView, current: MoveState, cell_id: usize, from: int)
    requires
        0 <= from,
    ensures
        stack_position_from(s.with_top(current).move_stack, cell_id, from) == stack_position_from(
            s.move_stack,
            cell_id,
            from,
        ),
    decreases s.move_stack.len() - from,
{
    if from < s.move_stack.len() {
        lemma_with_top_position(s, current, cell_id, from + 1);
    }
}

/// A wall that has no move on the stack is not pushed, unless walls may be
/// pushed from inside: the push fails, and it leaves the world as it was.
pub proof fn lemma_wall_blocks_push(s: SimView, current: MoveState, wall_id: usize, fuel: nat)
    requires
        s.game.cells[wall_id as int] is Wall,
        !s.on_stack(wall_id),
        !s.game.inner_push,
    ensures
        !s.try_push(current, wall_id, fuel).0,
        s.try_push(current, wall_id, fuel).1.game == s.game,
        fuel > 0 ==> s.try_push(current, wall_id, fuel).1 == s.with_top(current),
{
    lemma_with_top_position(s, current, wall_id, 0);
}

/// A wall that has no move on the stack and that the player cannot possess
/// stops whatever runs into it, in whichever order the interactions are
/// tried, unless walls may be pushed from inside: nothing enters it, eats it
/// or pushes it, and the world stays as it was.
pub proof fn lemma_wall_stops(
    s: SimView,
    order: Seq<ActionType>,
    current: MoveState,
    wall_id: usize,
    point: TransferPoint,
    from: nat,
    fuel: nat,
)
    requires
        s.game.cells[wall_id as int] is Wall,
        !s.on_stack(wall_id),
        !s.game.inner_push,
        !s.game.cells[wall_id as int].spec_possessable(),
    ensures
        !s.try_actions(order, current, wall_id, point, from, fuel).0,
        s.try_actions(order, current, wall_id, point, from, fuel).1.game == s.game,
    decreases order.len() - from,
{
    if from < order.len() {
        lemma_wall_blocks_push(s, current, wall_id, fuel);
        lemma_with_top_position(s, current, wall_id, 0);
        let r = match order[from as int] {
            ActionType::Push => s.try_push(current, wall_id, fuel),
            ActionType::Enter => if s.is_moving(wall_id) {
                (false, s)
            } else {
                s.try_enter(current, wall_id, point, fuel)
            },
            ActionType::Eat => s.try_eat(current, wall_id, fuel),
            ActionType::Possess => s.try_possess(current.cell_id, wall_id),
        };
        assert(!r.0);
        assert(r.1 == s || r.1 == s.with_top(current));
        lemma_wall_stops(r.1, order, current, wall_id, point, from + 1, fuel);
    }
}

/// Nothing enters a wall, a filled block, a block that is locked, or a
/// reference to a filled block: the attempt fails and leaves the state as it
/// was.
pub proof fn lemma_no_enter(
    s: SimView,
    current: MoveState,
    target_id: usize,
    point: TransferPoint,
    fuel: nat,
)
    requires
        match s.game.cells[target_id as int] {
            Cell::Wall(_) => true,
            Cell::Block(b) => b.filled || b.locked,
            Cell::Reference(r) => s.game.block_of(r.target_no) matches Some(b) && b.filled,
        },
    ensures
        s.enter_step(current, target_id, point) is None,
        s.try_enter(current, target_id, point, fuel) == (false, s),
{
}

/// The search for a cell finds the first one that answers.
pub proof fn lemma_find_first(cells: Seq<Cell>, query: Query, from: int, at: int)
    requires
        0 <= from <= at < cells.len(),
        cells[at].answers(query),
        forall|k: int| from <= k < at ==> !(#[trigger] cells[k]).answers(query),
    ensures
        find_from(cells, query, from) == Some(at),
    decreases at - from,
{
    if from < at {
        lemma_find_first(cells, query, from + 1, at);
    }
}

/// A cell that enters in the middle of the edge of a block of side 5 lands
/// on the third cell of that edge, in its middle.
pub proof fn lemma_middle_of_five()
    ensures
        TransferPoint::spec_middle().entered(5) == Some((2i32, TransferPoint::spec_middle())),
{
    lemma_constants();
    lemma_lowest_terms_fixed(1, 2);
    assert((1 * 5) / 2 == 2 && (1 * 5) % 2 == 1);
}

/// An entry that repeats one that the move made before, into the block
/// `block` in `direction` as the transfer of index `i`, where the world
/// does not yet hold the block that stands for that endless descent: that
/// block is added to the world, with a side of 5, locked, and marked with
/// the number of `block` and the degree of the transfer, at the centre of a
/// space of its own; and the traveller lands in it on the middle of the edge
/// that it crosses, in the orientation of the first entry.
pub proof fn lemma_endless_enter(s: SimView, current: MoveState, block: Block, direction: Direction, i: int)
    requires
        s.game.cells.len() + 2 < usize::MAX,
        s.game.has_room(),
        0 <= i < s.cache.enter.len(),
        s.cache.enter[i].degree < u32::MAX,
        s.game.inf_enter_of(block.block_no, s.cache.enter[i].degree) is None,
    ensures
        s.enter_again(current, block, direction, i) matches Some((after, landed, rest)) && {
            let id = (s.game.cells.len() + 1) as usize;
            &&& after.game == s.game.with_inf_enter(
                block.block_no,
                s.cache.enter[i].degree,
                block.hsv,
            )
            &&& after.game.inf_enter_of(block.block_no, s.cache.enter[i].degree) == Some(id)
            &&& after.game.cells[id as int] matches Cell::Block(b) && b.width == 5 && b.height == 5
                && b.locked && !b.filled && b.hsv == block.hsv && b.gpos == space_center(
                s.game.cells.len() as usize,
            )
            &&& landed.gpos.block_id == id
            &&& landed.gpos.pos == match direction {
                Direction::Up => Pos(2, 0),
                Direction::Down => Pos(2, 4),
                Direction::Left => Pos(4, 2),
                Direction::Right => Pos(0, 2),
            }
            &&& landed.fliph == s.cache.enter[i].fliph
            &&& landed.direction == direction
            &&& rest == TransferPoint::spec_middle()
            &&& after.cache.enter.len() == i + 1
            &&& after.cache.enter[i].degree == s.cache.enter[i].degree + 1
        },
{
    lemma_middle_of_five();
    let degree = s.cache.enter[i].degree;
    let query = Query::InfEnter(block.block_no, degree);
    let game = s.game.with_inf_enter(block.block_no, degree, block.hsv);
    let id = (s.game.cells.len() + 1) as int;
    lemma_find_from(s.game.cells, query, 0);
    assert forall|k: int| 0 <= k < id implies !(#[trigger] game.cells[k]).answers(query) by {
        if k < s.game.cells.len() {
            assert(game.cells[k] == s.game.cells[k]);
        }
    }
    lemma_find_first(game.cells, query, 0, id);
}

/// An exit that repeats one that the move made before, under the number
/// `no` as the transfer of index `i`, where the world does not yet hold the
/// reference that stands for that endless ascent: that reference is added
/// to the world, marked with the number and the degree of the transfer, at
/// the centre of a space of its own; and the traveller comes out of it, at
/// the point and in the orientation of the first exit.
pub proof fn lemma_endless_exit(s: SimView, current: MoveState, no: BlockNo, i: int)
    requires
        s.game.cells.len() + 2 < usize::MAX,
        s.game.has_room(),
        0 <= i < s.cache.exit.len(),
        s.cache.exit[i].degree < u32::MAX,
        s.game.inf_exit_of(no, s.cache.exit[i].degree) is None,
    ensures
        s.exit_again(current, no, i) matches Some((after, id, out, point)) && {
            &&& id == s.game.cells.len() + 1
            &&& after.game == s.game.with_inf_exit(no, s.cache.exit[i].degree)
            &&& after.game.inf_exit_of(no, s.cache.exit[i].degree) == Some(id)
            &&& after.game.cells[id as int] matches Cell::Reference(r) && r.target_no == no
                && r.inf_exit == Some(s.cache.exit[i].degree) && !r.exit && r.gpos == space_center(
                s.game.cells.len() as usize,
            )
            &&& out.gpos == space_center(s.game.cells.len() as usize)
            &&& out.direction == current.direction
            &&& out.fliph == s.cache.exit[i].fliph
            &&& point == s.cache.exit[i].point
            &&& after.cache.exit.len() == i + 1
            &&& after.cache.exit[i].degree == s.cache.exit[i].degree + 1
        },
{
    let degree = s.cache.exit[i].degree;
    let query = Query::InfExit(no, degree);
    let game = s.game.with_inf_exit(no, degree);
    let id = (s.game.cells.len() + 1) as int;
    lemma_find_from(s.game.cells, query, 0);
    assert forall|k: int| 0 <= k < id implies !(#[trigger] game.cells[k]).answers(query) by {
        if k < s.game.cells.len() {
            assert(game.cells[k] == s.game.cells[k]);
        }
    }
    lemma_find_first(game.cells, query, 0, id);
}

/// Possessing moves nothing: where it succeeds, the player whose turn it is
/// becomes the target, every cell stays where it is, and no move is carried
/// out.
pub proof fn lemma_possess(s: SimView, source_id: usize, target_id: usize)
    requires
        s.try_possess(source_id, target_id).0,
        s.move_stack.len() <= usize::MAX,
    ensures
        s.try_possess(source_id, target_id).1.game.cells == s.game.cells,
        s.try_possess(source_id, target_id).1.game.player_ids == s.game.player_ids.update(
            s.player_index as int,
            target_id,
        ),
        source_id == s.game.player_ids[s.player_index as int],
        s.game.cells[target_id as int].spec_possessable(),
        !s.game.is_player(target_id),
        committed(
            s.try_possess(source_id, target_id).1.game,
            s.try_possess(source_id, target_id).1.move_stack,
            s.try_possess(source_id, target_id).1.move_index as int,
        ) == s.try_possess(source_id, target_id).1.game,
{
}

} // verus!
