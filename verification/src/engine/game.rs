//! The world: a pool of cells, the goals, and the players.

use std::collections::HashMap;
use vstd::prelude::*;

use super::model::played;
use super::simulation::Simulator;
use super::utility::{Direction, GlobalPos, Pos, ROOT};

verus! {

/// The number by which references name a block.
#[derive(Copy, Clone, Debug, PartialEq, Eq, Hash, Structural)]
pub struct BlockNo(pub i32);

/// A colour, for presentation only. Each component is in thousandths of its
/// range.
#[derive(Copy, Clone, Debug, PartialEq, Eq, Structural)]
pub struct Hsv {
    pub hue: i32,
    pub sat: i32,
    pub val: i32,
}

#[derive(Copy, Clone, Debug, PartialEq, Eq)]
pub enum Cell {
    Wall(Wall),
    Block(Block),
    Reference(Reference),
}

#[derive(Copy, Clone, Debug, PartialEq, Eq)]
pub struct Wall {
    pub id: usize,
    pub gpos: GlobalPos,
    pub possessable: bool,
}

#[derive(Copy, Clone, Debug, PartialEq, Eq)]
pub struct Block {
    pub id: usize,
    pub gpos: GlobalPos,
    pub block_no: BlockNo,
    pub width: i32,
    pub height: i32,
    pub hsv: Hsv,
    /// Solid: nothing enters.
    pub filled: bool,
    /// A backdrop at the top level; nothing leaves it.
    pub space: bool,
    /// Not entered when met directly.
    pub locked: bool,
    pub possessable: bool,
    pub fliph: bool,
    /// Set on the block that stands for an endless descent into the block of
    /// that number, at that degree.
    pub inf_enter: Option<(BlockNo, u32)>,
}

#[derive(Copy, Clone, Debug, PartialEq, Eq)]
pub struct Reference {
    pub id: usize,
    pub gpos: GlobalPos,
    pub target_no: BlockNo,
    /// The one way out of its target.
    pub exit: bool,
    /// Set on the reference that stands for an endless ascent out of its
    /// target, at that degree.
    pub inf_exit: Option<u32>,
    pub possessable: bool,
    pub fliph: bool,
}

#[derive(Copy, Clone, Debug, PartialEq, Eq)]
pub struct Goal {
    pub gpos: GlobalPos,
    /// Whether the cell on it must be a player.
    pub player: bool,
}

#[derive(Clone, Debug)]
pub struct GameConfig {
    pub attempt_order: Vec<ActionType>,
    pub shed: bool,
    pub inner_push: bool,
}

#[derive(Copy, Clone, Debug, PartialEq, Eq, Hash, Structural)]
pub enum ActionType {
    Push,
    Enter,
    Eat,
    Possess,
}

/// What a search through the cells looks for.
#[derive(Copy, Clone, Debug)]
pub enum Query {
    /// The cell at a position.
    At(GlobalPos),
    /// The reference that is the exit of the block of a number.
    ExitOf(BlockNo),
    /// The reference that stands for an endless ascent.
    InfExit(BlockNo, u32),
    /// The block that stands for an endless descent.
    InfEnter(BlockNo, u32),
}

/// The world as a mathematical value.
pub struct GameView {
    pub cells: Seq<Cell>,
    pub goals: Seq<Goal>,
    pub block_map: Map<i32, usize>,
    pub player_ids: Seq<usize>,
    pub attempt_order: Seq<ActionType>,
    pub shed: bool,
    pub inner_push: bool,
}

#[derive(Clone, Debug)]
pub struct Game {
    cells: Vec<Cell>,
    goals: Vec<Goal>,
    block_map: HashMap<i32, usize>,
    player_ids: Vec<usize>,
    config: GameConfig,
}

/// Half the side of a space, and the coordinate of its centre.
pub const SPACE_SIZE: i32 = 3;

/// The side of the block that stands for an endless descent.
pub const INF_ENTER_SIZE: i32 = 5;

impl Cell {
    pub open spec fn spec_id(&self) -> usize {
        match self {
            Cell::Wall(wall) => wall.id,
            Cell::Block(block) => block.id,
            Cell::Reference(reference) => reference.id,
        }
    }

    pub open spec fn spec_gpos(&self) -> GlobalPos {
        match self {
            Cell::Wall(wall) => wall.gpos,
            Cell::Block(block) => block.gpos,
            Cell::Reference(reference) => reference.gpos,
        }
    }

    pub open spec fn spec_possessable(&self) -> bool {
        match self {
            Cell::Wall(wall) => wall.possessable,
            Cell::Block(block) => block.possessable,
            Cell::Reference(reference) => reference.possessable,
        }
    }

    pub open spec fn spec_fliph(&self) -> bool {
        match self {
            Cell::Wall(_) => false,
            Cell::Block(block) => block.fliph,
            Cell::Reference(reference) => reference.fliph,
        }
    }

    /// This cell at another place and in another orientation. A wall has no
    /// orientation and keeps none.
    pub open spec fn moved_to(self, gpos: GlobalPos, fliph: bool) -> Cell {
        match self {
            Cell::Wall(wall) => Cell::Wall(Wall { gpos, ..wall }),
            Cell::Block(block) => Cell::Block(Block { gpos, fliph, ..block }),
            Cell::Reference(reference) => Cell::Reference(Reference { gpos, fliph, ..reference }),
        }
    }

    /// Whether this cell is what `query` looks for.
    pub open spec fn answers(self, query: Query) -> bool {
        match query {
            Query::At(gpos) => self.spec_gpos() == gpos,
            Query::ExitOf(no) => self matches Cell::Reference(r) && r.exit && r.target_no == no,
            Query::InfExit(no, degree) => self matches Cell::Reference(r) && r.target_no == no
                && r.inf_exit == Some(degree),
            Query::InfEnter(no, degree) => self matches Cell::Block(b) && b.inf_enter == Some(
                (no, degree),
            ),
        }
    }

    #[verifier::when_used_as_spec(spec_id)]
    pub fn id(&self) -> (r: usize)
        ensures
            r == self.spec_id(),
    {
        match self {
            Cell::Wall(wall) => wall.id,
            Cell::Block(block) => block.id,
            Cell::Reference(reference) => reference.id,
        }
    }

    #[verifier::when_used_as_spec(spec_gpos)]
    pub fn gpos(&self) -> (r: GlobalPos)
        ensures
            r == self.spec_gpos(),
    {
        match self {
            Cell::Wall(wall) => wall.gpos,
            Cell::Block(block) => block.gpos,
            Cell::Reference(reference) => reference.gpos,
        }
    }

    #[verifier::when_used_as_spec(spec_possessable)]
    pub fn possessable(&self) -> (r: bool)
        ensures
            r == self.spec_possessable(),
    {
        match self {
            Cell::Wall(wall) => wall.possessable,
            Cell::Block(block) => block.possessable,
            Cell::Reference(reference) => reference.possessable,
        }
    }

    #[verifier::when_used_as_spec(spec_fliph)]
    pub fn fliph(&self) -> (r: bool)
        ensures
            r == self.spec_fliph(),
    {
        match self {
            Cell::Wall(_) => false,
            Cell::Block(block) => block.fliph,
            Cell::Reference(reference) => reference.fliph,
        }
    }

    pub fn is_wall(&self) -> (r: bool)
        ensures
            r == (self is Wall),
    {
        match self {
            Cell::Wall(_) => true,
            _ => false,
        }
    }

    pub fn block(&self) -> (r: Option<&Block>)
        ensures
            match r {
                Some(block) => *self == Cell::Block(*block),
                None => !(self is Block),
            },
    {
        match self {
            Cell::Block(block) => Some(block),
            _ => None,
        }
    }

    pub fn block_mut(&mut self) -> (r: Option<&mut Block>)
        ensures
            match r {
                Some(block) => *old(self) == Cell::Block(*block) && *final(self) == Cell::Block(
                    *final(block),
                ),
                None => !(*old(self) is Block) && *final(self) == *old(self),
            },
    {
        match self {
            Cell::Block(block) => Some(block),
            _ => None,
        }
    }

    pub fn reference(&self) -> (r: Option<&Reference>)
        ensures
            match r {
                Some(reference) => *self == Cell::Reference(*reference),
                None => !(self is Reference),
            },
    {
        match self {
            Cell::Reference(reference) => Some(reference),
            _ => None,
        }
    }

    /// Computes [`Cell::answers`].
    pub fn is_answer(&self, query: &Query) -> (r: bool)
        ensures
            r == self.answers(*query),
    {
        match query {
            Query::At(gpos) => self.gpos() == *gpos,
            Query::ExitOf(no) => match self {
                Cell::Reference(r) => r.exit && r.target_no == *no,
                _ => false,
            },
            Query::InfExit(no, degree) => match self {
                Cell::Reference(r) => r.target_no == *no && match r.inf_exit {
                    Some(d) => d == *degree,
                    None => false,
                },
                _ => false,
            },
            Query::InfEnter(no, degree) => match self {
                Cell::Block(b) => match b.inf_enter {
                    Some((n, d)) => n == *no && d == *degree,
                    None => false,
                },
                _ => false,
            },
        }
    }
}

impl Block {
    /// Whether `pos` lies in the local grid.
    pub open spec fn contains(&self, pos: Pos) -> bool {
        pos.0 >= 0 && pos.1 >= 0 && pos.0 < self.width && pos.1 < self.height
    }

    #[verifier::when_used_as_spec(contains)]
    pub fn in_bounds(&self, pos: Pos) -> (r: bool)
        ensures
            r == self.contains(pos),
    {
        pos.0 >= 0 && pos.1 >= 0 && pos.0 < self.width && pos.1 < self.height
    }

    pub fn can_enter(&self) -> (r: bool)
        ensures
            r == !self.filled,
    {
        !self.filled
    }

    pub fn can_exit(&self) -> (r: bool)
        ensures
            r == !self.space,
    {
        !self.space
    }
}

impl Reference {
    pub fn can_enter(&self) -> (r: bool)
        ensures
            r == (self.inf_exit is None),
    {
        self.inf_exit.is_none()
    }
}

impl GameConfig {
    /// The order in which interactions are tried unless a level says
    /// otherwise.
    pub open spec fn default_order() -> Seq<ActionType> {
        seq![ActionType::Push, ActionType::Enter, ActionType::Eat, ActionType::Possess]
    }
}

impl Default for GameConfig {
    fn default() -> (r: Self)
        ensures
            r.attempt_order@ == GameConfig::default_order(),
            !r.shed,
            !r.inner_push,
    {
        let mut attempt_order = Vec::new();
        attempt_order.push(ActionType::Push);
        attempt_order.push(ActionType::Enter);
        attempt_order.push(ActionType::Eat);
        attempt_order.push(ActionType::Possess);
        assert(attempt_order@ =~= GameConfig::default_order());
        Self { attempt_order, shed: false, inner_push: false }
    }
}

/// The index of the first cell at or after `from` that answers `query`.
pub open spec fn find_from(cells: Seq<Cell>, query: Query, from: int) -> Option<int>
    decreases cells.len() - from,
{
    if from < 0 || from >= cells.len() {
        None
    } else if cells[from].answers(query) {
        Some(from)
    } else {
        find_from(cells, query, from + 1)
    }
}

/// The index of the first cell that answers `query`.
pub open spec fn find(cells: Seq<Cell>, query: Query) -> Option<int> {
    find_from(cells, query, 0)
}

/// What [`find_from`] returns is the first answer, and `None` means that
/// there is none.
pub proof fn lemma_find_from(cells: Seq<Cell>, query: Query, from: int)
    requires
        0 <= from,
    ensures
        match find_from(cells, query, from) {
            Some(i) => from <= i < cells.len() && cells[i].answers(query) && forall|k: int|
                from <= k < i ==> !(#[trigger] cells[k]).answers(query),
            None => forall|k: int| from <= k < cells.len() ==> !(#[trigger] cells[k]).answers(query),
        },
    decreases cells.len() - from,
{
    if from < cells.len() && !cells[from].answers(query) {
        lemma_find_from(cells, query, from + 1);
    }
}

/// Whether `gpos` names the top level, or a place inside the grid of a block.
pub open spec fn placed(cells: Seq<Cell>, gpos: GlobalPos) -> bool {
    gpos.block_id == ROOT || (gpos.block_id < cells.len() && cells[gpos.block_id as int] is Block
        && cells[gpos.block_id as int]->Block_0.contains(gpos.pos))
}

/// Whether the cell of this id is a space.
pub open spec fn is_space_at(cells: Seq<Cell>, block_id: usize) -> bool {
    block_id < cells.len() && cells[block_id as int] is Block && cells[block_id as int]->Block_0.space
}

/// One more than the largest block number among `cells`, and 0 where there
/// is no block: a number that no block has.
pub open spec fn next_block_no(cells: Seq<Cell>) -> int
    decreases cells.len(),
{
    if cells.len() == 0 {
        0
    } else {
        let rest = next_block_no(cells.drop_last());
        match cells.last() {
            Cell::Block(b) => if b.block_no.0 + 1 > rest {
                b.block_no.0 + 1
            } else {
                rest
            },
            _ => rest,
        }
    }
}

/// No block has the number that [`next_block_no`] gives.
pub proof fn lemma_next_block_no(cells: Seq<Cell>)
    ensures
        next_block_no(cells) >= 0,
        forall|i: int|
            0 <= i < cells.len() ==> (#[trigger] cells[i] matches Cell::Block(b) ==> b.block_no.0
                < next_block_no(cells)),
    decreases cells.len(),
{
    if cells.len() > 0 {
        lemma_next_block_no(cells.drop_last());
        assert forall|i: int| 0 <= i < cells.len() implies (#[trigger] cells[i] matches Cell::Block(
            b,
        ) ==> b.block_no.0 < next_block_no(cells)) by {
            if i < cells.len() - 1 {
                assert(cells.drop_last()[i] == cells[i]);
            }
        }
    }
}

/// The backdrop that [`GameView::with_space`] adds.
pub open spec fn space_block(id: usize, no: int) -> Block {
    Block {
        id,
        gpos: GlobalPos { block_id: ROOT, pos: Pos(0, 0) },
        block_no: BlockNo(no as i32),
        width: 7,
        height: 7,
        hsv: Hsv { hue: 0, sat: 0, val: 500 },
        filled: false,
        space: true,
        locked: false,
        possessable: false,
        fliph: false,
        inf_enter: None,
    }
}

/// The centre of a space.
pub open spec fn space_center(space_id: usize) -> GlobalPos {
    GlobalPos { block_id: space_id, pos: Pos(3, 3) }
}

impl GameView {
    pub open spec fn empty() -> GameView {
        GameView {
            cells: Seq::empty(),
            goals: Seq::empty(),
            block_map: Map::empty(),
            player_ids: Seq::empty(),
            attempt_order: GameConfig::default_order(),
            shed: false,
            inner_push: false,
        }
    }

    /// What holds of every world, before and after each turn: ids are
    /// indices, every cell is placed inside its container, an enterable block
    /// has a grid, every enterable reference resolves through the block map,
    /// every unlocked block that is no space is in the block map, and every
    /// player exists.
    pub open spec fn wf(self) -> bool {
        &&& self.cells.len() < usize::MAX
        &&& forall|i: int|
            0 <= i < self.cells.len() ==> {
                &&& (#[trigger] self.cells[i]).spec_id() == i
                &&& placed(self.cells, self.cells[i].spec_gpos())
                &&& (self.cells[i] matches Cell::Block(b) ==> (!b.filled ==> b.width >= 1
                    && b.height >= 1) && (!b.locked && !b.space ==> self.block_map.contains_key(
                    b.block_no.0,
                )))
                &&& (self.cells[i] matches Cell::Reference(r) ==> r.inf_exit is None
                    ==> self.block_map.contains_key(r.target_no.0))
            }
        &&& forall|no: i32| #[trigger]
            self.block_map.contains_key(no) ==> self.block_map[no] < self.cells.len()
                && self.cells[self.block_map[no] as int] is Block
                && self.cells[self.block_map[no] as int]->Block_0.block_no.0 == no
        &&& forall|j: int|
            0 <= j < self.player_ids.len() ==> #[trigger] self.player_ids[j] < self.cells.len()
    }

    /// No two cells are at the same place inside a block. The top level is
    /// no place: the cells that live there are nowhere.
    pub open spec fn positions_distinct(self) -> bool {
        forall|i: int, j: int|
            0 <= i < j < self.cells.len() && (#[trigger] self.cells[i]).spec_gpos() == (
            #[trigger] self.cells[j]).spec_gpos() ==> self.cells[i].spec_gpos().block_id == ROOT
    }

    /// Every player is a possessable cell.
    pub open spec fn players_possessable(self) -> bool {
        forall|j: int|
            0 <= j < self.player_ids.len() ==> #[trigger] self.player_ids[j] < self.cells.len()
                && self.cells[self.player_ids[j] as int].spec_possessable()
    }

    /// The id of the cell at `gpos`.
    pub open spec fn cell_id_at(self, gpos: GlobalPos) -> Option<usize> {
        match find(self.cells, Query::At(gpos)) {
            Some(i) => Some(i as usize),
            None => None,
        }
    }

    /// The block of a number, by the block map.
    pub open spec fn block_of(self, no: BlockNo) -> Option<Block> {
        if self.block_map.contains_key(no.0) {
            match self.cells[self.block_map[no.0] as int] {
                Cell::Block(b) => Some(b),
                _ => None,
            }
        } else {
            None
        }
    }

    /// The cell through which the contents of `block` leave it: none for a
    /// space; else the first reference that is marked as the exit of its
    /// number; else the block itself, unless it lives at the top level.
    pub open spec fn exit_of(self, block: Block) -> Option<usize> {
        if block.space {
            None
        } else {
            match find(self.cells, Query::ExitOf(block.block_no)) {
                Some(i) => Some(self.cells[i].spec_id()),
                None => if block.gpos.block_id != ROOT {
                    Some(block.id)
                } else {
                    None
                },
            }
        }
    }

    /// The reference that stands for an endless ascent out of the block of
    /// number `no`, at `degree`.
    pub open spec fn inf_exit_of(self, no: BlockNo, degree: u32) -> Option<usize> {
        match find(self.cells, Query::InfExit(no, degree)) {
            Some(i) => Some(self.cells[i].spec_id()),
            None => None,
        }
    }

    /// The block that stands for an endless descent into the block of number
    /// `no`, at `degree`.
    pub open spec fn inf_enter_of(self, no: BlockNo, degree: u32) -> Option<usize> {
        match find(self.cells, Query::InfEnter(no, degree)) {
            Some(i) => Some(self.cells[i].spec_id()),
            None => None,
        }
    }

    pub open spec fn is_player(self, id: usize) -> bool {
        self.player_ids.contains(id)
    }

    /// A goal is met where a cell stands on it that is a player exactly if
    /// the goal asks for one.
    pub open spec fn goal_met(self, goal: Goal) -> bool {
        match self.cell_id_at(goal.gpos) {
            Some(i) => self.is_player(self.cells[i as int].spec_id()) == goal.player,
            None => false,
        }
    }

    /// There is a goal, and every goal is met.
    pub open spec fn won(self) -> bool {
        self.goals.len() > 0 && forall|i: int|
            0 <= i < self.goals.len() ==> self.goal_met(#[trigger] self.goals[i])
    }

    /// What a trivial block holds at `(x, y)`: a wall that cannot be
    /// possessed on the border, nothing inside.
    pub open spec fn trivial_at(self, block: Block, x: int, y: int) -> bool {
        let at = self.cell_id_at(GlobalPos { block_id: block.id, pos: Pos(x as i32, y as i32) });
        if x == 0 || y == 0 || x == block.width - 1 || y == block.height - 1 {
            at matches Some(i) && self.cells[i as int] matches Cell::Wall(w) && !w.possessable
        } else {
            at is None
        }
    }

    /// A block is trivial if it is filled, or if its border is walls that
    /// cannot be possessed and its interior is empty.
    pub open spec fn block_trivial(self, block: Block) -> bool {
        block.filled || forall|x: int, y: int|
            0 <= x < block.width && 0 <= y < block.height ==> #[trigger] self.trivial_at(
                block,
                x,
                y,
            )
    }

    /// Whether two more cells and two more block numbers can be had.
    pub open spec fn has_room(self) -> bool {
        self.cells.len() + 2 < usize::MAX && next_block_no(self.cells) + 1 <= i32::MAX
    }

    /// The world with one more space, whose id is the old number of cells.
    pub open spec fn with_space(self) -> GameView {
        GameView {
            cells: self.cells.push(
                Cell::Block(space_block(self.cells.len() as usize, next_block_no(self.cells))),
            ),
            ..self
        }
    }

    /// The world with a fresh space, and at its centre a reference that
    /// stands for an endless ascent out of the block of number `no`.
    pub open spec fn with_inf_exit(self, no: BlockNo, degree: u32) -> GameView {
        let spaced = self.with_space();
        GameView {
            cells: spaced.cells.push(
                Cell::Reference(
                    Reference {
                        id: spaced.cells.len() as usize,
                        gpos: space_center(self.cells.len() as usize),
                        target_no: no,
                        exit: false,
                        inf_exit: Some(degree),
                        possessable: false,
                        fliph: false,
                    },
                ),
            ),
            ..spaced
        }
    }

    /// The world with a fresh space, and at its centre a locked block of a
    /// fresh number that stands for an endless descent into the block of
    /// number `no`, in that block's colour.
    pub open spec fn with_inf_enter(self, no: BlockNo, degree: u32, hsv: Hsv) -> GameView {
        let spaced = self.with_space();
        GameView {
            cells: spaced.cells.push(
                Cell::Block(
                    Block {
                        id: spaced.cells.len() as usize,
                        gpos: space_center(self.cells.len() as usize),
                        block_no: BlockNo(next_block_no(spaced.cells) as i32),
                        width: 5,
                        height: 5,
                        hsv,
                        filled: false,
                        space: false,
                        locked: true,
                        possessable: false,
                        fliph: false,
                        inf_enter: Some((no, degree)),
                    },
                ),
            ),
            ..spaced
        }
    }

    /// The world after the cell `id` went to `gpos` in orientation `fliph`.
    pub open spec fn with_move(self, id: usize, gpos: GlobalPos, fliph: bool) -> GameView {
        GameView { cells: self.cells.update(id as int, self.cells[id as int].moved_to(gpos, fliph)), ..self }
    }

    /// The world after the block `id` was marked as the one that stands for
    /// an endless descent into the block of number `no`, at `degree`.
    pub open spec fn with_tag(self, id: usize, no: BlockNo, degree: u32) -> GameView {
        GameView {
            cells: self.cells.update(
                id as int,
                Cell::Block(
                    Block { inf_enter: Some((no, degree)), ..self.cells[id as int]->Block_0 },
                ),
            ),
            ..self
        }
    }

    /// The world after player `index` became the cell `id`.
    pub open spec fn with_player(self, index: int, id: usize) -> GameView {
        GameView { player_ids: self.player_ids.update(index, id), ..self }
    }
}

/// Adding a cell that is placed keeps the world well formed.
pub proof fn lemma_push_wf(g: GameView, c: Cell)
    requires
        g.wf(),
        g.cells.len() + 1 < usize::MAX,
        c.spec_id() == g.cells.len(),
        placed(g.cells.push(c), c.spec_gpos()),
        c matches Cell::Block(b) ==> (!b.filled ==> b.width >= 1 && b.height >= 1) && (b.locked
            || b.space),
        c matches Cell::Reference(r) ==> r.inf_exit is Some,
    ensures
        (GameView { cells: g.cells.push(c), ..g }).wf(),
{
    let h = GameView { cells: g.cells.push(c), ..g };
    assert forall|i: int| 0 <= i < h.cells.len() implies {
        &&& (#[trigger] h.cells[i]).spec_id() == i
        &&& placed(h.cells, h.cells[i].spec_gpos())
        &&& (h.cells[i] matches Cell::Block(b) ==> (!b.filled ==> b.width >= 1 && b.height >= 1)
            && (!b.locked && !b.space ==> h.block_map.contains_key(b.block_no.0)))
        &&& (h.cells[i] matches Cell::Reference(r) ==> r.inf_exit is None
            ==> h.block_map.contains_key(r.target_no.0))
    } by {
        if i < g.cells.len() {
            assert(h.cells[i] == g.cells[i]);
            let gp = g.cells[i].spec_gpos();
            if gp.block_id != ROOT {
                assert(h.cells[gp.block_id as int] == g.cells[gp.block_id as int]);
            }
        }
    }
    assert forall|no: i32| #[trigger] h.block_map.contains_key(no) implies h.block_map[no]
        < h.cells.len() && h.cells[h.block_map[no] as int] is Block
        && h.cells[h.block_map[no] as int]->Block_0.block_no.0 == no by {
        assert(h.cells[g.block_map[no] as int] == g.cells[g.block_map[no] as int]);
    }
}

/// Synthesis keeps the world well formed.
pub proof fn lemma_synthesis_wf(g: GameView, no: BlockNo, degree: u32, hsv: Hsv)
    requires
        g.wf(),
        g.has_room(),
    ensures
        g.with_space().wf(),
        g.with_inf_exit(no, degree).wf(),
        g.with_inf_enter(no, degree, hsv).wf(),
{
    let s = g.with_space();
    lemma_push_wf(g, s.cells.last());
    assert(s.cells[g.cells.len() as int] == s.cells.last());
    let e = g.with_inf_exit(no, degree);
    lemma_push_wf(s, e.cells.last());
    assert(e.cells[g.cells.len() as int] == s.cells.last());
    let n = g.with_inf_enter(no, degree, hsv);
    lemma_push_wf(s, n.cells.last());
    assert(n.cells[g.cells.len() as int] == s.cells.last());
}

impl View for Game {
    type V = GameView;

    closed spec fn view(&self) -> GameView {
        GameView {
            cells: self.cells@,
            goals: self.goals@,
            block_map: self.block_map@,
            player_ids: self.player_ids@,
            attempt_order: self.config.attempt_order@,
            shed: self.config.shed,
            inner_push: self.config.inner_push,
        }
    }
}

impl Game {
    /// See [`GameView::wf`].
    pub open spec fn wf(&self) -> bool {
        self@.wf()
    }

    /// A world without cells.
    pub fn new() -> (r: Self)
        ensures
            r@ == GameView::empty(),
            r.wf(),
    {
        Self {
            cells: Vec::new(),
            goals: Vec::new(),
            block_map: HashMap::new(),
            player_ids: Vec::new(),
            config: GameConfig::default(),
        }
    }

    pub fn cells(&self) -> (r: &Vec<Cell>)
        ensures
            r@ == self@.cells,
    {
        &self.cells
    }

    pub fn goals(&self) -> (r: &Vec<Goal>)
        ensures
            r@ == self@.goals,
    {
        &self.goals
    }

    pub fn player_ids(&self) -> (r: &Vec<usize>)
        ensures
            r@ == self@.player_ids,
    {
        &self.player_ids
    }

    pub fn config(&self) -> (r: &GameConfig)
        ensures
            r.attempt_order@ == self@.attempt_order,
            r.shed == self@.shed,
            r.inner_push == self@.inner_push,
    {
        &self.config
    }

    /// The index of the first cell that answers `query`.
    pub fn find_cell(&self, query: &Query) -> (r: Option<usize>)
        ensures
            match r {
                Some(i) => find(self@.cells, *query) == Some(i as int) && i < self@.cells.len(),
                None => find(self@.cells, *query) is None,
            },
    {
        let mut i: usize = 0;
        while i < self.cells.len()
            invariant
                0 <= i <= self.cells@.len(),
                find(self.cells@, *query) == find_from(self.cells@, *query, i as int),
            decreases self.cells@.len() - i,
        {
            if self.cells[i].is_answer(query) {
                return Some(i);
            }
            i += 1;
        }
        None
    }

    /// The cell at `gpos`: the first one, should there be several.
    pub fn cell_at(&self, gpos: GlobalPos) -> (r: Option<&Cell>)
        ensures
            match r {
                Some(cell) => self@.cell_id_at(gpos) is Some && *cell == self@.cells[self@.cell_id_at(
                    gpos,
                ).unwrap() as int],
                None => self@.cell_id_at(gpos) is None,
            },
    {
        match self.find_cell(&Query::At(gpos)) {
            Some(i) => Some(&self.cells[i]),
            None => None,
        }
    }

    /// Whether the cell `block_id` is a space.
    pub fn is_space(&self, block_id: usize) -> (r: bool)
        ensures
            r == is_space_at(self@.cells, block_id),
    {
        if block_id < self.cells.len() {
            match &self.cells[block_id] {
                Cell::Block(b) => b.space,
                _ => false,
            }
        } else {
            false
        }
    }

    /// Whether `id` is a player.
    pub fn is_player(&self, id: usize) -> (r: bool)
        ensures
            r == self@.is_player(id),
    {
        let mut j: usize = 0;
        while j < self.player_ids.len()
            invariant
                0 <= j <= self.player_ids@.len(),
                forall|k: int| 0 <= k < j ==> self.player_ids@[k] != id,
            decreases self.player_ids@.len() - j,
        {
            if self.player_ids[j] == id {
                return true;
            }
            j += 1;
        }
        false
    }

    /// See [`GameView::block_trivial`].
    pub fn is_block_trivial(&self, block: &Block) -> (r: bool)
        ensures
            r == self@.block_trivial(*block),
    {
        if block.filled {
            return true;
        }
        let mut x: i32 = 0;
        while x < block.width
            invariant
                0 <= x,
                !block.filled,
                forall|a: int, b: int|
                    0 <= a < x && 0 <= b < block.height ==> #[trigger] self@.trivial_at(
                        *block,
                        a,
                        b,
                    ),
            decreases block.width - x,
        {
            let mut y: i32 = 0;
            while y < block.height
                invariant
                    0 <= x < block.width,
                    0 <= y,
                    !block.filled,
                    forall|a: int, b: int|
                        0 <= a < x && 0 <= b < block.height ==> #[trigger] self@.trivial_at(
                            *block,
                            a,
                            b,
                        ),
                    forall|b: int| 0 <= b < y ==> #[trigger] self@.trivial_at(*block, x as int, b),
                decreases block.height - y,
            {
                let cell = self.cell_at(GlobalPos { block_id: block.id, pos: Pos(x, y) });
                let fits = if x == 0 || y == 0 || x == block.width - 1 || y == block.height - 1 {
                    match cell {
                        Some(Cell::Wall(wall)) => !wall.possessable,
                        _ => false,
                    }
                } else {
                    cell.is_none()
                };
                if !fits {
                    assert(!self@.trivial_at(*block, x as int, y as int));
                    return false;
                }
                y += 1;
            }
            x += 1;
        }
        true
    }

    /// A block number that no block has, if one is left.
    pub fn allocate_block_no(&self) -> (r: Option<BlockNo>)
        ensures
            match r {
                Some(no) => no.0 == next_block_no(self@.cells),
                None => next_block_no(self@.cells) > i32::MAX,
            },
    {
        let mut result: i64 = 0;
        let mut i: usize = 0;
        while i < self.cells.len()
            invariant
                0 <= i <= self.cells@.len(),
                result == next_block_no(self.cells@.take(i as int)),
                0 <= result <= i32::MAX + 1,
            decreases self.cells@.len() - i,
        {
            proof {
                assert(self.cells@.take(i + 1).drop_last() =~= self.cells@.take(i as int));
            }
            if let Cell::Block(block) = &self.cells[i] {
                let next = block.block_no.0 as i64 + 1;
                if next > result {
                    result = next;
                }
            }
            i += 1;
        }
        assert(self.cells@.take(i as int) =~= self.cells@);
        if result > i32::MAX as i64 {
            None
        } else {
            Some(BlockNo(result as i32))
        }
    }

    /// Computes [`GameView::has_room`].
    pub fn has_room(&self) -> (r: bool)
        ensures
            r == self@.has_room(),
    {
        if self.cells.len() >= usize::MAX - 2 {
            return false;
        }
        match self.allocate_block_no() {
            Some(no) => no.0 < i32::MAX,
            None => false,
        }
    }

    /// Adds a space, and returns its id.
    pub(crate) fn add_space(&mut self) -> (id: usize)
        requires
            old(self)@.has_room(),
        ensures
            final(self)@ == old(self)@.with_space(),
            id == old(self)@.cells.len(),
    {
        let id = self.cells.len();
        let no = self.allocate_block_no().unwrap();
        self.cells.push(
            Cell::Block(
                Block {
                    id,
                    gpos: GlobalPos { block_id: ROOT, pos: Pos(0, 0) },
                    block_no: no,
                    width: 2 * SPACE_SIZE + 1,
                    height: 2 * SPACE_SIZE + 1,
                    hsv: Hsv { hue: 0, sat: 0, val: 500 },
                    filled: false,
                    space: true,
                    locked: false,
                    possessable: false,
                    fliph: false,
                    inf_enter: None,
                },
            ),
        );
        id
    }

    /// See [`GameView::block_of`].
    pub fn block_by_no(&self, block_no: BlockNo) -> (r: Option<&Block>)
        requires
            self.wf(),
        ensures
            match r {
                Some(block) => self@.block_of(block_no) == Some(*block),
                None => self@.block_of(block_no) is None,
            },
    {
        match self.block_map.get(&block_no.0) {
            Some(id) => self.cells[*id].block(),
            None => None,
        }
    }

    /// See [`GameView::exit_of`].
    pub fn exit_id_for(&self, block: &Block) -> (r: Option<usize>)
        ensures
            r == self@.exit_of(*block),
    {
        if !block.can_exit() {
            return None;
        }
        match self.find_cell(&Query::ExitOf(block.block_no)) {
            Some(i) => Some(self.cells[i].id()),
            None => if block.gpos.block_id != ROOT {
                Some(block.id)
            } else {
                None
            },
        }
    }

    /// See [`GameView::inf_exit_of`].
    pub fn inf_exit_id_for(&self, block_no: BlockNo, degree: u32) -> (r: Option<usize>)
        ensures
            r == self@.inf_exit_of(block_no, degree),
    {
        match self.find_cell(&Query::InfExit(block_no, degree)) {
            Some(i) => Some(self.cells[i].id()),
            None => None,
        }
    }

    /// See [`GameView::inf_enter_of`].
    pub fn inf_enter_id_for(&self, block: &Block, degree: u32) -> (r: Option<usize>)
        ensures
            r == self@.inf_enter_of(block.block_no, degree),
    {
        match self.find_cell(&Query::InfEnter(block.block_no, degree)) {
            Some(i) => Some(self.cells[i].id()),
            None => None,
        }
    }

    /// Adds the reference that stands for an endless ascent out of the block
    /// of number `block_no`, at the centre of a space of its own, and returns
    /// its id.
    pub(crate) fn add_inf_exit_for(&mut self, block_no: BlockNo, degree: u32) -> (id: usize)
        requires
            old(self).wf(),
            old(self)@.has_room(),
        ensures
            final(self)@ == old(self)@.with_inf_exit(block_no, degree),
            id == old(self)@.cells.len() + 1,
            final(self).wf(),
    {
        proof {
            lemma_synthesis_wf(self@, block_no, degree, Hsv { hue: 0, sat: 0, val: 0 });
        }
        let gpos = GlobalPos { block_id: self.add_space(), pos: Pos(SPACE_SIZE, SPACE_SIZE) };
        let id = self.cells.len();
        self.cells.push(
            Cell::Reference(
                Reference {
                    id,
                    gpos,
                    target_no: block_no,
                    exit: false,
                    inf_exit: Some(degree),
                    possessable: false,
                    fliph: false,
                },
            ),
        );
        id
    }

    /// Adds the block that stands for an endless descent into the block of
    /// number `block_no`, at the centre of a space of its own, and returns
    /// its id.
    pub(crate) fn add_inf_enter_for(&mut self, block_no: BlockNo, degree: u32, hsv: Hsv) -> (id: usize)
        requires
            old(self).wf(),
            old(self)@.has_room(),
        ensures
            final(self)@ == old(self)@.with_inf_enter(block_no, degree, hsv),
            id == old(self)@.cells.len() + 1,
            final(self).wf(),
    {
        proof {
            lemma_synthesis_wf(self@, block_no, degree, hsv);
            lemma_next_block_no(self@.cells);
            assert(self@.with_space().cells.drop_last() =~= self@.cells);
        }
        let gpos = GlobalPos { block_id: self.add_space(), pos: Pos(SPACE_SIZE, SPACE_SIZE) };
        let id = self.cells.len();
        let no = self.allocate_block_no().unwrap();
        self.cells.push(
            Cell::Block(
                Block {
                    id,
                    gpos,
                    block_no: no,
                    width: INF_ENTER_SIZE,
                    height: INF_ENTER_SIZE,
                    hsv,
                    filled: false,
                    space: false,
                    locked: true,
                    possessable: false,
                    fliph: false,
                    inf_enter: Some((block_no, degree)),
                },
            ),
        );
        id
    }

    /// Adds a cell.
    pub(crate) fn push_cell(&mut self, cell: Cell)
        ensures
            final(self)@ == (GameView { cells: old(self)@.cells.push(cell), ..old(self)@ }),
    {
        self.cells.push(cell);
    }

    /// Adds a goal.
    pub(crate) fn push_goal(&mut self, goal: Goal)
        ensures
            final(self)@ == (GameView { goals: old(self)@.goals.push(goal), ..old(self)@ }),
    {
        self.goals.push(goal);
    }

    /// Enters the cell `id` in the block map, under the number `no`.
    pub(crate) fn map_block(&mut self, no: BlockNo, id: usize)
        ensures
            final(self)@ == (GameView {
                block_map: old(self)@.block_map.insert(no.0, id),
                ..old(self)@
            }),
    {
        self.block_map.insert(no.0, id);
    }

    /// The id under which the block map holds the number `no`.
    pub(crate) fn block_id_of(&self, no: BlockNo) -> (r: Option<usize>)
        ensures
            r == (if self@.block_map.contains_key(no.0) {
                Some(self@.block_map[no.0])
            } else {
                None
            }),
    {
        match self.block_map.get(&no.0) {
            Some(id) => Some(*id),
            None => None,
        }
    }

    /// Sets the order in which interactions are tried.
    pub(crate) fn set_attempt_order(&mut self, order: Vec<ActionType>)
        ensures
            final(self)@ == (GameView { attempt_order: order@, ..old(self)@ }),
    {
        self.config.attempt_order = order;
    }

    /// Makes the rules say that containers are shed.
    pub(crate) fn set_shed(&mut self)
        ensures
            final(self)@ == (GameView { shed: true, ..old(self)@ }),
    {
        self.config.shed = true;
    }

    /// Makes the rules say that walls are pushed from inside.
    pub(crate) fn set_inner_push(&mut self)
        ensures
            final(self)@ == (GameView { inner_push: true, ..old(self)@ }),
    {
        self.config.inner_push = true;
    }

    /// Marks the block `id` as the one that stands for an endless descent
    /// into the block of number `no`, at `degree`.
    pub(crate) fn tag_inf_enter(&mut self, id: usize, no: BlockNo, degree: u32)
        requires
            id < old(self)@.cells.len(),
            old(self)@.cells[id as int] is Block,
        ensures
            final(self)@ == old(self)@.with_tag(id, no, degree),
    {
        match self.cells[id] {
            Cell::Block(block) => {
                self.cells[id] = Cell::Block(Block { inf_enter: Some((no, degree)), ..block });
            },
            _ => {},
        }
    }

    /// Sets the players.
    pub(crate) fn set_player_ids(&mut self, ids: Vec<usize>)
        ensures
            final(self)@ == (GameView { player_ids: ids@, ..old(self)@ }),
    {
        self.player_ids = ids;
    }

    /// Puts the cell `id` at `gpos`, in orientation `fliph`.
    pub(crate) fn move_cell(&mut self, id: usize, gpos: GlobalPos, fliph: bool)
        requires
            id < old(self)@.cells.len(),
        ensures
            final(self)@ == old(self)@.with_move(id, gpos, fliph),
    {
        let moved = match self.cells[id] {
            Cell::Wall(wall) => Cell::Wall(Wall { gpos, ..wall }),
            Cell::Block(block) => Cell::Block(Block { gpos, fliph, ..block }),
            Cell::Reference(reference) => Cell::Reference(Reference { gpos, fliph, ..reference }),
        };
        self.cells[id] = moved;
    }

    /// Makes the cell `id` the player `index`.
    pub(crate) fn set_player(&mut self, index: usize, id: usize)
        requires
            index < old(self)@.player_ids.len(),
        ensures
            final(self)@ == old(self)@.with_player(index as int, id),
    {
        self.player_ids[index] = id;
    }

    /// Resolves one press of `direction`: each player in turn tries to move,
    /// and where that succeeds, the moves that the resolution settled on are
    /// carried out.
    pub fn play(&mut self, direction: Direction)
        requires
            old(self).wf(),
        ensures
            final(self)@ == played(old(self)@, direction),
            final(self).wf(),
            old(self)@.positions_distinct() ==> final(self)@.positions_distinct(),
            old(self)@.players_possessable() ==> final(self)@.players_possessable(),
            final(self)@.goals == old(self)@.goals,
            final(self)@.player_ids.len() == old(self)@.player_ids.len(),
            old(self)@.cells.len() <= final(self)@.cells.len(),
    {
        let mut simulator = Simulator::new(self);
        simulator.play(direction);
    }

    /// See [`GameView::won`].
    pub fn won(&self) -> (r: bool)
        ensures
            r == self@.won(),
    {
        let mut i: usize = 0;
        while i < self.goals.len()
            invariant
                0 <= i <= self.goals@.len(),
                forall|k: int| 0 <= k < i ==> self@.goal_met(#[trigger] self.goals@[k]),
            decreases self.goals@.len() - i,
        {
            let goal = self.goals[i];
            let met = match self.cell_at(goal.gpos) {
                Some(cell) => self.is_player(cell.id()) == goal.player,
                None => false,
            };
            if !met {
                assert(!self@.goal_met(self@.goals[i as int]));
                return false;
            }
            i += 1;
        }
        self.goals.len() > 0
    }
}

} // verus!
