//! The level format: a world, written as text.
//!
//! A level is a header and a body, with a line that holds a single `#`
//! between them. The header sets the rules. Each line of the body describes
//! one thing; the tabs that it starts with say in which block the thing
//! lies.

use vstd::prelude::*;
use vstd::string::StringSliceAdditionalSpecFns;

use super::game::{
    lemma_find_from, lemma_next_block_no, placed, space_center, ActionType, Block,
    BlockNo, Cell, Game, GameView, Goal, Hsv, Query, Reference, Wall, SPACE_SIZE,
};
use super::text::{
    find_line_end, i32_of, is_word, leading_tabs, line_at, line_end, line_of, milli_of, parse_i32,
    parse_milli, parse_u32, pieces_of, split_commas, tabs_from, tokenize, tokens_of, u32_of, views,
};
use super::utility::{GlobalPos, Pos, ROOT};

verus! {

/// Why a text is no level.
#[derive(Copy, Clone, Debug, PartialEq, Eq, Structural)]
pub enum ParseErrorKind {
    /// The header names no version, or another one than 4.
    UnsupportedVersion,
    /// The header gives an order of interactions that names something else
    /// than push, enter, eat and possess.
    UnknownAttemptOrder,
    /// A line is indented deeper than the blocks above it go.
    InvalidIndentation,
    /// A line of the body starts with a word that names no kind of thing.
    UnknownObjectType,
    /// A block with fewer than 17 words.
    InvalidBlock,
    /// A block that is not filled and has no width or no height.
    InvalidBlockSize,
    /// A block whose number another block has.
    DuplicateBlock,
    /// A reference with fewer than 16 words.
    InvalidReference,
    /// A wall with fewer than 6 words.
    InvalidWall,
    /// A wall that lies in no block.
    WallOutsideOfBlock,
    /// A floor with fewer than 4 words.
    InvalidFloor,
    /// A floor that is neither a `Button` nor a `PlayerButton`.
    UnknownFloorType,
    /// A word that should be a number and is none, or one that is too large.
    InvalidNumber,
    /// A place outside the block that it should lie in.
    InvalidPosition,
    /// A place where a cell lies already.
    CellAlreadyExists,
    /// A reference to a block that the level does not hold.
    InvalidReferenceTarget,
    /// A mark for an endless descent on a block that the level does not hold.
    InvalidInfEnterTarget,
    /// More cells, or larger block numbers, than the machine can count.
    TooLarge,
}

/// Why a text is no level, and the number of the line that says so, counted
/// from 1. The line is 0 where the level as a whole is at fault.
#[derive(Copy, Clone, Debug, PartialEq, Eq)]
pub struct ParseError {
    pub kind: ParseErrorKind,
    pub line: usize,
}

/// A mark for an endless descent that waits for its block: the block of
/// number `target` is to stand for the descent into the block of number
/// `no`, at `degree`.
#[derive(Copy, Clone, Debug)]
pub struct Patch {
    pub no: BlockNo,
    pub degree: u32,
    pub target: BlockNo,
}

/// A player that waits for its turn in the order of the players.
#[derive(Copy, Clone, Debug)]
pub struct Entrant {
    pub order: i32,
    pub id: usize,
}

/// What is known of a level while its lines are read.
pub struct Loading {
    pub game: GameView,
    /// Whether the header is still being read.
    pub header: bool,
    /// Whether the header named the version.
    pub versioned: bool,
    /// The blocks that the last line lies in, outermost first.
    pub stack: Seq<usize>,
    pub players: Seq<Entrant>,
    pub patches: Seq<Patch>,
}

/// The bytes of a word.
pub open spec fn word(s: &str) -> Seq<u8> {
    s.spec_bytes()
}

/// Whether a word switches something on: it does if it is `1`.
pub open spec fn is_on(token: Seq<u8>) -> bool {
    token == word("1")
}

pub open spec fn action_of(piece: Seq<u8>) -> Option<ActionType> {
    if piece == word("push") {
        Some(ActionType::Push)
    } else if piece == word("enter") {
        Some(ActionType::Enter)
    } else if piece == word("eat") {
        Some(ActionType::Eat)
    } else if piece == word("possess") {
        Some(ActionType::Possess)
    } else {
        None
    }
}

/// The interactions that the pieces from `at` on name, after those in
/// `done`; none if a piece names no interaction.
pub open spec fn actions_from(pieces: Seq<Seq<u8>>, at: int, done: Seq<ActionType>) -> Option<
    Seq<ActionType>,
>
    decreases pieces.len() - at,
{
    if at < 0 || at >= pieces.len() {
        Some(done)
    } else {
        match action_of(pieces[at]) {
            None => None,
            Some(action) => actions_from(pieces, at + 1, done.push(action)),
        }
    }
}

/// The place of a player in the order of the players, if the thing is one:
/// `Some(None)` for a thing that is no player, `None` where the place is no
/// number.
pub open spec fn entrant_of(flag: Seq<u8>, order: Seq<u8>) -> Option<Option<i32>> {
    if is_on(flag) {
        match i32_of(order) {
            Some(o) => Some(Some(o)),
            None => None,
        }
    } else {
        Some(None)
    }
}

/// The players with one more, if the thing `id` is one.
pub open spec fn entered(players: Seq<Entrant>, order: Option<i32>, id: usize) -> Seq<Entrant> {
    match order {
        Some(o) => players.push(Entrant { order: o, id }),
        None => players,
    }
}

/// Whether a new cell may lie at `gpos`: anywhere at the top level; else
/// inside the grid of its block, where no cell lies yet.
pub open spec fn check_place(game: GameView, gpos: GlobalPos) -> Result<(), ParseErrorKind> {
    if gpos.block_id == ROOT {
        Ok(())
    } else if !game.cells[gpos.block_id as int]->Block_0.contains(gpos.pos) {
        Err(ParseErrorKind::InvalidPosition)
    } else if game.cell_id_at(gpos) is Some {
        Err(ParseErrorKind::CellAlreadyExists)
    } else {
        Ok(())
    }
}

/// Where a new cell goes, and the world that it goes into: a cell that
/// floats in space goes to the centre of a space of its own; any other goes
/// to `(x, y)` in the block `parent`.
pub open spec fn placement(game: GameView, parent: usize, x: i32, y: i32, floating: bool) -> Result<
    (GameView, GlobalPos),
    ParseErrorKind,
> {
    let gpos = GlobalPos { block_id: parent, pos: Pos(x, y) };
    if !game.has_room() {
        Err(ParseErrorKind::TooLarge)
    } else if floating {
        Ok((game.with_space(), space_center(game.cells.len() as usize)))
    } else {
        match check_place(game, gpos) {
            Ok(_) => Ok((game, gpos)),
            Err(e) => Err(e),
        }
    }
}

/// A line of the header, by its words: the version, which must be 4; the
/// order of the interactions; `shed`; `inner_push`. Any other line says
/// nothing.
pub open spec fn header_line(st: Loading, t: Seq<Seq<u8>>) -> Result<Loading, ParseErrorKind> {
    if t.len() == 0 {
        Ok(st)
    } else if t[0] == word("version") {
        if t.len() >= 2 && t[1] == word("4") {
            Ok(Loading { versioned: true, ..st })
        } else {
            Err(ParseErrorKind::UnsupportedVersion)
        }
    } else if t[0] == word("attempt_order") {
        if t.len() < 2 {
            Err(ParseErrorKind::UnknownAttemptOrder)
        } else {
            match actions_from(pieces_of(t[1]), 0, Seq::empty()) {
                Some(order) => Ok(
                    Loading { game: GameView { attempt_order: order, ..st.game }, ..st },
                ),
                None => Err(ParseErrorKind::UnknownAttemptOrder),
            }
        }
    } else if t[0] == word("shed") {
        Ok(Loading { game: GameView { shed: true, ..st.game }, ..st })
    } else if t[0] == word("inner_push") {
        Ok(Loading { game: GameView { inner_push: true, ..st.game }, ..st })
    } else {
        Ok(st)
    }
}

/// The numbers of a block line.
pub struct BlockWords {
    pub x: i32,
    pub y: i32,
    pub no: i32,
    pub width: i32,
    pub height: i32,
    pub hsv: Hsv,
    pub order: Option<i32>,
}

/// Reads the numbers of a block line: `Block x y no width height hue sat val
/// zoom filled player possessable player_order fliph floatinspace effect`.
pub open spec fn block_words(t: Seq<Seq<u8>>) -> Option<BlockWords> {
    match (i32_of(t[1]), i32_of(t[2]), i32_of(t[3]), i32_of(t[4]), i32_of(t[5])) {
        (Some(x), Some(y), Some(no), Some(width), Some(height)) => match (
            milli_of(t[6]),
            milli_of(t[7]),
            milli_of(t[8]),
            entrant_of(t[11], t[13]),
        ) {
            (Some(hue), Some(sat), Some(val), Some(order)) => Some(
                BlockWords { x, y, no, width, height, hsv: Hsv { hue, sat, val }, order },
            ),
            _ => None,
        },
        _ => None,
    }
}

/// A block line: the block goes to its place, into the block map and on the
/// stack of blocks.
pub open spec fn block_line(st: Loading, parent: usize, t: Seq<Seq<u8>>) -> Result<
    Loading,
    ParseErrorKind,
> {
    if t.len() < 17 {
        Err(ParseErrorKind::InvalidBlock)
    } else {
        match block_words(t) {
            None => Err(ParseErrorKind::InvalidNumber),
            Some(w) => if !is_on(t[10]) && (w.width <= 0 || w.height <= 0) {
                Err(ParseErrorKind::InvalidBlockSize)
            } else if st.game.block_map.contains_key(w.no) {
                Err(ParseErrorKind::DuplicateBlock)
            } else {
                match placement(st.game, parent, w.x, w.y, is_on(t[15])) {
                    Err(e) => Err(e),
                    Ok((game, gpos)) => {
                        let id = game.cells.len() as usize;
                        Ok(
                            Loading {
                                game: GameView {
                                    cells: game.cells.push(
                                        Cell::Block(
                                            Block {
                                                id,
                                                gpos,
                                                block_no: BlockNo(w.no),
                                                width: w.width,
                                                height: w.height,
                                                hsv: w.hsv,
                                                filled: is_on(t[10]),
                                                space: false,
                                                locked: false,
                                                possessable: is_on(t[12]),
                                                fliph: is_on(t[14]),
                                                inf_enter: None,
                                            },
                                        ),
                                    ),
                                    block_map: game.block_map.insert(w.no, id),
                                    ..game
                                },
                                stack: st.stack.push(id),
                                players: entered(st.players, w.order, id),
                                ..st
                            },
                        )
                    },
                }
            },
        }
    }
}

/// The numbers of a reference line.
pub struct RefWords {
    pub x: i32,
    pub y: i32,
    pub target: i32,
    pub inf_exit: Option<u32>,
    pub patch: Option<(i32, u32)>,
    pub order: Option<i32>,
}

/// Reads the numbers of a reference line: `Ref x y target exit inf_exit
/// inf_exit_degree inf_enter inf_enter_degree inf_enter_block player
/// possessable player_order fliph floatinspace effect`. The degree of an
/// endless ascent counts only where `inf_exit` is on; the mark of an endless
/// descent only where `inf_exit` is off and `inf_enter` is on.
pub open spec fn ref_words(t: Seq<Seq<u8>>) -> Option<RefWords> {
    match (i32_of(t[1]), i32_of(t[2]), i32_of(t[3]), entrant_of(t[10], t[12])) {
        (Some(x), Some(y), Some(target), Some(order)) => {
            if is_on(t[5]) {
                match u32_of(t[6]) {
                    Some(degree) => Some(
                        RefWords { x, y, target, inf_exit: Some(degree), patch: None, order },
                    ),
                    None => None,
                }
            } else if is_on(t[7]) {
                match (u32_of(t[8]), i32_of(t[9])) {
                    (Some(degree), Some(no)) => Some(
                        RefWords { x, y, target, inf_exit: None, patch: Some((no, degree)), order },
                    ),
                    _ => None,
                }
            } else {
                Some(RefWords { x, y, target, inf_exit: None, patch: None, order })
            }
        },
        _ => None,
    }
}

/// A reference line: the reference goes to its place. One that stands for
/// an endless ascent is no exit.
pub open spec fn ref_line(st: Loading, parent: usize, t: Seq<Seq<u8>>) -> Result<
    Loading,
    ParseErrorKind,
> {
    if t.len() < 16 {
        Err(ParseErrorKind::InvalidReference)
    } else {
        match ref_words(t) {
            None => Err(ParseErrorKind::InvalidNumber),
            Some(w) => match placement(st.game, parent, w.x, w.y, is_on(t[14])) {
                Err(e) => Err(e),
                Ok((game, gpos)) => {
                    let id = game.cells.len() as usize;
                    Ok(
                        Loading {
                            game: GameView {
                                cells: game.cells.push(
                                    Cell::Reference(
                                        Reference {
                                            id,
                                            gpos,
                                            target_no: BlockNo(w.target),
                                            exit: is_on(t[4]) && w.inf_exit is None,
                                            inf_exit: w.inf_exit,
                                            possessable: is_on(t[11]),
                                            fliph: is_on(t[13]),
                                        },
                                    ),
                                ),
                                ..game
                            },
                            players: entered(st.players, w.order, id),
                            patches: match w.patch {
                                Some((no, degree)) => st.patches.push(
                                    Patch { no: BlockNo(no), degree, target: BlockNo(w.target) },
                                ),
                                None => st.patches,
                            },
                            ..st
                        },
                    )
                },
            },
        }
    }
}

/// A wall line: `Wall x y player possessable player_order`. A wall lies in
/// a block.
pub open spec fn wall_line(st: Loading, parent: usize, t: Seq<Seq<u8>>) -> Result<
    Loading,
    ParseErrorKind,
> {
    if t.len() < 6 {
        Err(ParseErrorKind::InvalidWall)
    } else {
        match (i32_of(t[1]), i32_of(t[2]), entrant_of(t[3], t[5])) {
            (Some(x), Some(y), Some(order)) => if parent == ROOT {
                Err(ParseErrorKind::WallOutsideOfBlock)
            } else {
                match placement(st.game, parent, x, y, false) {
                    Err(e) => Err(e),
                    Ok((game, gpos)) => {
                        let id = game.cells.len() as usize;
                        Ok(
                            Loading {
                                game: GameView {
                                    cells: game.cells.push(
                                        Cell::Wall(Wall { id, gpos, possessable: is_on(t[4]) }),
                                    ),
                                    ..game
                                },
                                players: entered(st.players, order, id),
                                ..st
                            },
                        )
                    },
                }
            },
            _ => Err(ParseErrorKind::InvalidNumber),
        }
    }
}

/// A floor line: `Floor x y type`, where the type is `Button` or
/// `PlayerButton`. It adds a goal.
pub open spec fn floor_line(st: Loading, parent: usize, t: Seq<Seq<u8>>) -> Result<
    Loading,
    ParseErrorKind,
> {
    if t.len() < 4 {
        Err(ParseErrorKind::InvalidFloor)
    } else {
        match (i32_of(t[1]), i32_of(t[2])) {
            (Some(x), Some(y)) => if t[3] != word("Button") && t[3] != word("PlayerButton") {
                Err(ParseErrorKind::UnknownFloorType)
            } else {
                Ok(
                    Loading {
                        game: GameView {
                            goals: st.game.goals.push(
                                Goal {
                                    gpos: GlobalPos { block_id: parent, pos: Pos(x, y) },
                                    player: t[3] != word("Button"),
                                },
                            ),
                            ..st.game
                        },
                        ..st
                    },
                )
            },
            _ => Err(ParseErrorKind::InvalidNumber),
        }
    }
}

/// A line of the body, by the number of tabs that it starts with and its
/// words. The tabs say how many of the blocks above the line it lies in; the
/// first word says what the line describes.
pub open spec fn body_line(st: Loading, depth: int, t: Seq<Seq<u8>>) -> Result<
    Loading,
    ParseErrorKind,
> {
    let inside = Loading { stack: st.stack.take(depth), ..st };
    let parent = if depth == 0 {
        ROOT
    } else {
        st.stack[depth - 1]
    };
    if t.len() == 0 {
        Ok(st)
    } else if depth > st.stack.len() {
        Err(ParseErrorKind::InvalidIndentation)
    } else if t[0] == word("Block") {
        block_line(inside, parent, t)
    } else if t[0] == word("Ref") {
        ref_line(inside, parent, t)
    } else if t[0] == word("Wall") {
        wall_line(inside, parent, t)
    } else if t[0] == word("Floor") {
        floor_line(inside, parent, t)
    } else {
        Err(ParseErrorKind::UnknownObjectType)
    }
}

/// One line. A line that holds a single `#` ends the header, which must
/// have named the version by then.
pub open spec fn load_line(st: Loading, line: Seq<u8>) -> Result<Loading, ParseErrorKind> {
    if line == word("#") {
        if st.versioned {
            Ok(Loading { header: false, ..st })
        } else {
            Err(ParseErrorKind::UnsupportedVersion)
        }
    } else if st.header {
        header_line(st, tokens_of(line))
    } else {
        body_line(st, tabs_from(line, 0), tokens_of(line))
    }
}

/// The lines of `text` from the byte `at` on, which start with line number
/// `line + 1`.
pub open spec fn load_from(st: Loading, text: Seq<u8>, at: int, line: nat) -> Result<
    Loading,
    ParseError,
>
    decreases text.len() - at,
{
    let end = line_end(text, at);
    let after = if at <= end < text.len() {
        end + 1
    } else {
        text.len() as int
    };
    if at < 0 || at >= text.len() {
        Ok(st)
    } else {
        match load_line(st, line_at(text, at)) {
            Err(kind) => Err(ParseError { kind, line: (line + 1) as usize }),
            Ok(next) => load_from(next, text, after, line + 1),
        }
    }
}

/// Whether every reference names a block of the block map.
pub open spec fn references_resolve(game: GameView) -> bool {
    forall|i: int|
        0 <= i < game.cells.len() ==> ((#[trigger] game.cells[i]) matches Cell::Reference(r)
            ==> game.block_map.contains_key(r.target_no.0))
}

/// The world after the marks from `at` on were put on their blocks; an error
/// if the block of a mark is not in the block map.
pub open spec fn patched(game: GameView, patches: Seq<Patch>, at: int) -> Result<
    GameView,
    ParseErrorKind,
>
    decreases patches.len() - at,
{
    if at < 0 || at >= patches.len() {
        Ok(game)
    } else if !game.block_map.contains_key(patches[at].target.0) {
        Err(ParseErrorKind::InvalidInfEnterTarget)
    } else {
        patched(
            game.with_tag(
                game.block_map[patches[at].target.0],
                patches[at].no,
                patches[at].degree,
            ),
            patches,
            at + 1,
        )
    }
}

/// The index at which `entrant` joins `list`, which is in order: behind
/// every player whose place is not behind its own.
pub open spec fn slot_for(list: Seq<Entrant>, entrant: Entrant) -> int
    decreases list.len(),
{
    if list.len() == 0 || list.last().order <= entrant.order {
        list.len() as int
    } else {
        slot_for(list.drop_last(), entrant)
    }
}

/// The first `count` players in the order of their places. Players with the
/// same place stay in the order of their lines.
pub open spec fn in_order(players: Seq<Entrant>, count: int) -> Seq<Entrant>
    decreases count,
{
    if count <= 0 {
        Seq::empty()
    } else {
        let before = in_order(players, count - 1);
        before.insert(slot_for(before, players[count - 1]), players[count - 1])
    }
}

/// The ids of the players in the order of their places.
pub open spec fn player_ids_of(players: Seq<Entrant>) -> Seq<usize> {
    Seq::new(players.len(), |i: int| in_order(players, players.len() as int)[i].id)
}

/// What is known before the first line is read: an empty world, and the
/// header ahead.
pub open spec fn start() -> Loading {
    Loading {
        game: GameView::empty(),
        header: true,
        versioned: false,
        stack: Seq::empty(),
        players: Seq::empty(),
        patches: Seq::empty(),
    }
}

/// The level after its last line: the version was named, every reference
/// resolves, the marks for endless descents are on their blocks, and the
/// players are in order.
pub open spec fn finished(st: Loading) -> Result<GameView, ParseError> {
    if !st.versioned {
        Err(ParseError { kind: ParseErrorKind::UnsupportedVersion, line: 0 })
    } else if !references_resolve(st.game) {
        Err(ParseError { kind: ParseErrorKind::InvalidReferenceTarget, line: 0 })
    } else {
        match patched(st.game, st.patches, 0) {
            Err(kind) => Err(ParseError { kind, line: 0 }),
            Ok(game) => Ok(GameView { player_ids: player_ids_of(st.players), ..game }),
        }
    }
}

/// The world that the text `text` describes, or why it describes none.
pub open spec fn parsed(text: Seq<u8>) -> Result<GameView, ParseError> {
    match load_from(start(), text, 0, 0) {
        Err(e) => Err(e),
        Ok(st) => finished(st),
    }
}

/// What holds of a world while it is read: all that holds of a world, but
/// that its references may name blocks that are still to come.
pub open spec fn shaped(g: GameView) -> bool {
    &&& g.cells.len() < usize::MAX
    &&& forall|i: int|
        0 <= i < g.cells.len() ==> {
            &&& (#[trigger] g.cells[i]).spec_id() == i
            &&& placed(g.cells, g.cells[i].spec_gpos())
            &&& (g.cells[i] matches Cell::Block(b) ==> (!b.filled ==> b.width >= 1 && b.height
                >= 1) && (!b.locked && !b.space ==> g.block_map.contains_key(b.block_no.0)))
        }
    &&& forall|no: i32| #[trigger]
        g.block_map.contains_key(no) ==> g.block_map[no] < g.cells.len()
            && g.cells[g.block_map[no] as int] is Block
            && g.cells[g.block_map[no] as int]->Block_0.block_no.0 == no
}

/// Whether `parent` can hold a cell: it is the top level, or a block.
pub open spec fn holds(g: GameView, parent: usize) -> bool {
    parent == ROOT || (parent < g.cells.len() && g.cells[parent as int] is Block)
}

impl Loading {
    /// What holds between any two lines.
    pub open spec fn sound(self) -> bool {
        &&& shaped(self.game)
        &&& self.game.positions_distinct()
        &&& self.game.player_ids.len() == 0
        &&& forall|i: int| 0 <= i < self.stack.len() ==> holds(self.game, #[trigger] self.stack[i])
        &&& forall|i: int|
            0 <= i < self.players.len() ==> (#[trigger] self.players[i]).id < self.game.cells.len()
    }
}

/// A world that is read stays sound when a cell is added at a free place,
/// and, where the cell is a block that can be entered, the block map gets
/// its number.
pub proof fn lemma_add_cell(g: GameView, c: Cell, h: GameView)
    requires
        shaped(g),
        g.positions_distinct(),
        g.cells.len() + 1 < usize::MAX,
        c.spec_id() == g.cells.len(),
        placed(g.cells.push(c), c.spec_gpos()),
        c.spec_gpos().block_id != ROOT ==> g.cell_id_at(c.spec_gpos()) is None,
        c matches Cell::Block(b) ==> (!b.filled ==> b.width >= 1 && b.height >= 1),
        c matches Cell::Block(b) ==> (!b.locked && !b.space ==> !g.block_map.contains_key(
            b.block_no.0,
        )),
        h.cells == g.cells.push(c),
        h.block_map == (if c is Block && !c->Block_0.locked && !c->Block_0.space {
            g.block_map.insert(c->Block_0.block_no.0, g.cells.len() as usize)
        } else {
            g.block_map
        }),
    ensures
        shaped(h),
        h.positions_distinct(),
        forall|p: usize| holds(g, p) ==> #[trigger] holds(h, p),
{
    assert forall|i: int| 0 <= i < h.cells.len() implies {
        &&& (#[trigger] h.cells[i]).spec_id() == i
        &&& placed(h.cells, h.cells[i].spec_gpos())
        &&& (h.cells[i] matches Cell::Block(b) ==> (!b.filled ==> b.width >= 1 && b.height >= 1)
            && (!b.locked && !b.space ==> h.block_map.contains_key(b.block_no.0)))
    } by {
        if i < g.cells.len() {
            assert(h.cells[i] == g.cells[i]);
            let gp = g.cells[i].spec_gpos();
            if gp.block_id != ROOT {
                assert(h.cells[gp.block_id as int] == g.cells[gp.block_id as int]);
            }
        }
    }
    assert forall|no: i32| #[trigger] h.block_map.contains_key(no) implies h.block_map[no]
        < h.cells.len() && h.cells[h.block_map[no] as int] is Block
        && h.cells[h.block_map[no] as int]->Block_0.block_no.0 == no by {
        if g.block_map.contains_key(no) {
            assert(h.cells[g.block_map[no] as int] == g.cells[g.block_map[no] as int]);
        }
    }
    lemma_find_from(g.cells, Query::At(c.spec_gpos()), 0);
    assert forall|i: int, j: int|
        0 <= i < j < h.cells.len() && (#[trigger] h.cells[i]).spec_gpos() == (
        #[trigger] h.cells[j]).spec_gpos() implies h.cells[i].spec_gpos().block_id == ROOT by {
        assert(h.cells[i] == g.cells[i]);
        if j < g.cells.len() {
            assert(h.cells[j] == g.cells[j]);
        } else {
            assert(g.cells[i].answers(Query::At(c.spec_gpos())));
        }
    }
    assert forall|p: usize| holds(g, p) implies #[trigger] holds(h, p) by {
        if p != ROOT {
            assert(h.cells[p as int] == g.cells[p as int]);
        }
    }
}

/// The state of a reader of levels.
pub struct Loader {
    pub game: Game,
    pub header: bool,
    pub versioned: bool,
    pub stack: Vec<usize>,
    pub players: Vec<Entrant>,
    pub patches: Vec<Patch>,
}

impl View for Loader {
    type V = Loading;

    open spec fn view(&self) -> Loading {
        Loading {
            game: self.game@,
            header: self.header,
            versioned: self.versioned,
            stack: self.stack@,
            players: self.players@,
            patches: self.patches@,
        }
    }
}

/// Computes [`action_of`].
fn read_action(piece: &Vec<u8>) -> (r: Option<ActionType>)
    ensures
        r == action_of(piece@),
{
    if is_word(piece, "push") {
        Some(ActionType::Push)
    } else if is_word(piece, "enter") {
        Some(ActionType::Enter)
    } else if is_word(piece, "eat") {
        Some(ActionType::Eat)
    } else if is_word(piece, "possess") {
        Some(ActionType::Possess)
    } else {
        None
    }
}

/// Computes [`actions_from`] for all the pieces of a word.
fn read_actions(token: &Vec<u8>) -> (r: Option<Vec<ActionType>>)
    ensures
        match r {
            Some(order) => actions_from(pieces_of(token@), 0, Seq::empty()) == Some(order@),
            None => actions_from(pieces_of(token@), 0, Seq::empty()) is None,
        },
{
    let pieces = split_commas(token);
    let mut order: Vec<ActionType> = Vec::new();
    let mut at: usize = 0;
    while at < pieces.len()
        invariant
            0 <= at <= pieces@.len(),
            views(pieces@) == pieces_of(token@),
            actions_from(pieces_of(token@), 0, Seq::empty()) == actions_from(
                pieces_of(token@),
                at as int,
                order@,
            ),
        decreases pieces@.len() - at,
    {
        assert(views(pieces@)[at as int] == pieces@[at as int]@);
        match read_action(&pieces[at]) {
            None => return None,
            Some(action) => order.push(action),
        }
        at += 1;
    }
    Some(order)
}

/// Computes [`entrant_of`].
fn read_entrant(flag: &Vec<u8>, order: &Vec<u8>) -> (r: Option<Option<i32>>)
    ensures
        r == entrant_of(flag@, order@),
{
    if is_word(flag, "1") {
        match parse_i32(order) {
            Some(o) => Some(Some(o)),
            None => None,
        }
    } else {
        Some(None)
    }
}

/// Computes [`block_words`].
fn read_block_words(t: &Vec<Vec<u8>>) -> (r: Option<BlockWords>)
    requires
        t@.len() >= 17,
    ensures
        r == block_words(views(t@)),
{
    assert(forall|k: int| 0 <= k < t@.len() ==> views(t@)[k] == t@[k]@);
    let x = parse_i32(&t[1]);
    let y = parse_i32(&t[2]);
    let no = parse_i32(&t[3]);
    let width = parse_i32(&t[4]);
    let height = parse_i32(&t[5]);
    match (x, y, no, width, height) {
        (Some(x), Some(y), Some(no), Some(width), Some(height)) => {
            let hue = parse_milli(&t[6]);
            let sat = parse_milli(&t[7]);
            let val = parse_milli(&t[8]);
            let order = read_entrant(&t[11], &t[13]);
            match (hue, sat, val, order) {
                (Some(hue), Some(sat), Some(val), Some(order)) => Some(
                    BlockWords { x, y, no, width, height, hsv: Hsv { hue, sat, val }, order },
                ),
                _ => None,
            }
        },
        _ => None,
    }
}

/// Computes [`ref_words`].
fn read_ref_words(t: &Vec<Vec<u8>>) -> (r: Option<RefWords>)
    requires
        t@.len() >= 16,
    ensures
        r == ref_words(views(t@)),
{
    assert(forall|k: int| 0 <= k < t@.len() ==> views(t@)[k] == t@[k]@);
    let x = parse_i32(&t[1]);
    let y = parse_i32(&t[2]);
    let target = parse_i32(&t[3]);
    let order = read_entrant(&t[10], &t[12]);
    match (x, y, target, order) {
        (Some(x), Some(y), Some(target), Some(order)) => {
            if is_word(&t[5], "1") {
                match parse_u32(&t[6]) {
                    Some(degree) => Some(
                        RefWords { x, y, target, inf_exit: Some(degree), patch: None, order },
                    ),
                    None => None,
                }
            } else if is_word(&t[7], "1") {
                let degree = parse_u32(&t[8]);
                let no = parse_i32(&t[9]);
                match (degree, no) {
                    (Some(degree), Some(no)) => Some(
                        RefWords { x, y, target, inf_exit: None, patch: Some((no, degree)), order },
                    ),
                    _ => None,
                }
            } else {
                Some(RefWords { x, y, target, inf_exit: None, patch: None, order })
            }
        },
        _ => None,
    }
}

impl Loader {
    pub fn new() -> (r: Loader)
        ensures
            r@ == start(),
            r@.sound(),
    {
        Loader {
            game: Game::new(),
            header: true,
            versioned: false,
            stack: Vec::new(),
            players: Vec::new(),
            patches: Vec::new(),
        }
    }

    /// Notes the thing `id` as a player, if it has a place in the order of
    /// the players.
    fn enter_player(&mut self, order: Option<i32>, id: usize)
        ensures
            final(self)@ == (Loading { players: entered(old(self)@.players, order, id), ..old(self)@ }),
    {
        if let Some(o) = order {
            self.players.push(Entrant { order: o, id });
        }
    }

    /// Computes [`placement`].
    fn place(&mut self, parent: usize, x: i32, y: i32, floating: bool) -> (r: Result<
        GlobalPos,
        ParseErrorKind,
    >)
        requires
            old(self)@.sound(),
            holds(old(self)@.game, parent),
        ensures
            match r {
                Ok(gpos) => placement(old(self)@.game, parent, x, y, floating) == Ok::<
                    (GameView, GlobalPos),
                    ParseErrorKind,
                >((final(self)@.game, gpos)) && final(self)@ == (Loading { game: final(self)@.game, ..old(self)@ })
                    && final(self)@.sound() && final(self)@.game.cells.len() + 1 < usize::MAX
                    && placed(final(self)@.game.cells, gpos) && (gpos.block_id != ROOT
                    ==> final(self)@.game.cell_id_at(gpos) is None)
                    && final(self)@.game.block_map == old(self)@.game.block_map,
                Err(e) => placement(old(self)@.game, parent, x, y, floating) == Err::<
                    (GameView, GlobalPos),
                    ParseErrorKind,
                >(e),
            },
    {
        let gpos = GlobalPos { block_id: parent, pos: Pos(x, y) };
        if !self.game.has_room() {
            return Err(ParseErrorKind::TooLarge);
        }
        if floating {
            let ghost g = self.game@;
            let id = self.game.add_space();
            proof {
                let h = self.game@;
                lemma_next_block_no(g.cells);
                lemma_add_cell(g, h.cells.last(), h);
                lemma_find_from(h.cells, Query::At(space_center(id)), 0);
                assert forall|k: int| 0 <= k < h.cells.len() implies !(#[trigger] h.cells[k]).answers(
                    Query::At(space_center(id)),
                ) by {
                    if k < g.cells.len() {
                        assert(h.cells[k] == g.cells[k]);
                        assert(placed(g.cells, g.cells[k].spec_gpos()));
                    }
                }
                assert forall|i: int| 0 <= i < self@.players.len() implies (
                #[trigger] self@.players[i]).id < h.cells.len() by {
                    assert(old(self)@.players[i].id < g.cells.len());
                }
            }
            return Ok(GlobalPos { block_id: id, pos: Pos(SPACE_SIZE, SPACE_SIZE) });
        }
        if parent == ROOT {
            return Ok(gpos);
        }
        let inside = match self.game.cells()[parent] {
            Cell::Block(b) => b.in_bounds(gpos.pos),
            _ => false,
        };
        if !inside {
            return Err(ParseErrorKind::InvalidPosition);
        }
        if self.game.cell_at(gpos).is_some() {
            return Err(ParseErrorKind::CellAlreadyExists);
        }
        Ok(gpos)
    }

    /// Adds a cell at a place that [`Loader::place`] gave.
    fn add_cell(&mut self, cell: Cell)
        requires
            old(self)@.sound(),
            old(self)@.game.cells.len() + 1 < usize::MAX,
            cell.spec_id() == old(self)@.game.cells.len(),
            placed(old(self)@.game.cells, cell.spec_gpos()),
            cell.spec_gpos().block_id != ROOT ==> old(self)@.game.cell_id_at(cell.spec_gpos()) is None,
            cell matches Cell::Block(b) ==> (!b.filled ==> b.width >= 1 && b.height >= 1)
                && !b.locked && !b.space && !old(self)@.game.block_map.contains_key(b.block_no.0),
        ensures
            final(self)@ == (Loading {
                game: GameView {
                    cells: old(self)@.game.cells.push(cell),
                    block_map: if cell is Block {
                        old(self)@.game.block_map.insert(
                            cell->Block_0.block_no.0,
                            old(self)@.game.cells.len() as usize,
                        )
                    } else {
                        old(self)@.game.block_map
                    },
                    ..old(self)@.game
                },
                ..old(self)@
            }),
            final(self)@.sound(),
    {
        let ghost g = self.game@;
        let id = self.game.cells().len();
        self.game.push_cell(cell);
        if let Cell::Block(b) = cell {
            self.game.map_block(b.block_no, id);
        }
        proof {
            let h = self.game@;
            if cell.spec_gpos().block_id != ROOT {
                assert(g.cells.push(cell)[cell.spec_gpos().block_id as int]
                    == g.cells[cell.spec_gpos().block_id as int]);
            }
            lemma_add_cell(g, cell, h);
            assert forall|i: int| 0 <= i < self@.players.len() implies (
            #[trigger] self@.players[i]).id < h.cells.len() by {
                assert(old(self)@.players[i].id < g.cells.len());
            }
            assert forall|i: int| 0 <= i < self@.stack.len() implies holds(
                h,
                #[trigger] self@.stack[i],
            ) by {
                assert(holds(g, old(self)@.stack[i]));
            }
        }
    }

    /// Computes [`header_line`].
    fn header_line(&mut self, t: &Vec<Vec<u8>>) -> (r: Result<(), ParseErrorKind>)
        requires
            old(self)@.sound(),
        ensures
            match r {
                Ok(_) => header_line(old(self)@, views(t@)) == Ok::<Loading, ParseErrorKind>(final(self)@) && final(self)@.sound(),
                Err(e) => header_line(old(self)@, views(t@)) == Err::<Loading, ParseErrorKind>(e),
            },
    {
        assert(forall|k: int| 0 <= k < t@.len() ==> views(t@)[k] == t@[k]@);
        if t.len() == 0 {
            return Ok(());
        }
        if is_word(&t[0], "version") {
            if t.len() >= 2 && is_word(&t[1], "4") {
                self.versioned = true;
                return Ok(());
            }
            return Err(ParseErrorKind::UnsupportedVersion);
        }
        if is_word(&t[0], "attempt_order") {
            if t.len() < 2 {
                return Err(ParseErrorKind::UnknownAttemptOrder);
            }
            match read_actions(&t[1]) {
                Some(order) => {
                    self.game.set_attempt_order(order);
                    return Ok(());
                },
                None => return Err(ParseErrorKind::UnknownAttemptOrder),
            }
        }
        if is_word(&t[0], "shed") {
            self.game.set_shed();
            return Ok(());
        }
        if is_word(&t[0], "inner_push") {
            self.game.set_inner_push();
            return Ok(());
        }
        Ok(())
    }

    /// Computes [`block_line`].
    fn block_line(&mut self, parent: usize, t: &Vec<Vec<u8>>) -> (r: Result<(), ParseErrorKind>)
        requires
            old(self)@.sound(),
            holds(old(self)@.game, parent),
        ensures
            match r {
                Ok(_) => block_line(old(self)@, parent, views(t@)) == Ok::<Loading, ParseErrorKind>(final(self)@) && final(self)@.sound(),
                Err(e) => block_line(old(self)@, parent, views(t@)) == Err::<Loading, ParseErrorKind>(e),
            },
    {
        assert(forall|k: int| 0 <= k < t@.len() ==> views(t@)[k] == t@[k]@);
        if t.len() < 17 {
            return Err(ParseErrorKind::InvalidBlock);
        }
        let w = match read_block_words(t) {
            Some(w) => w,
            None => return Err(ParseErrorKind::InvalidNumber),
        };
        let filled = is_word(&t[10], "1");
        let possessable = is_word(&t[12], "1");
        let fliph = is_word(&t[14], "1");
        let floating = is_word(&t[15], "1");
        if !filled && (w.width <= 0 || w.height <= 0) {
            return Err(ParseErrorKind::InvalidBlockSize);
        }
        if self.game.block_id_of(BlockNo(w.no)).is_some() {
            return Err(ParseErrorKind::DuplicateBlock);
        }
        let gpos = match self.place(parent, w.x, w.y, floating) {
            Ok(gpos) => gpos,
            Err(e) => return Err(e),
        };
        let id = self.game.cells().len();
        self.add_cell(
            Cell::Block(
                Block {
                    id,
                    gpos,
                    block_no: BlockNo(w.no),
                    width: w.width,
                    height: w.height,
                    hsv: w.hsv,
                    filled,
                    space: false,
                    locked: false,
                    possessable,
                    fliph,
                    inf_enter: None,
                },
            ),
        );
        self.stack.push(id);
        self.enter_player(w.order, id);
        Ok(())
    }

    /// Computes [`ref_line`].
    fn ref_line(&mut self, parent: usize, t: &Vec<Vec<u8>>) -> (r: Result<(), ParseErrorKind>)
        requires
            old(self)@.sound(),
            holds(old(self)@.game, parent),
        ensures
            match r {
                Ok(_) => ref_line(old(self)@, parent, views(t@)) == Ok::<Loading, ParseErrorKind>(final(self)@) && final(self)@.sound(),
                Err(e) => ref_line(old(self)@, parent, views(t@)) == Err::<Loading, ParseErrorKind>(e),
            },
    {
        assert(forall|k: int| 0 <= k < t@.len() ==> views(t@)[k] == t@[k]@);
        if t.len() < 16 {
            return Err(ParseErrorKind::InvalidReference);
        }
        let w = match read_ref_words(t) {
            Some(w) => w,
            None => return Err(ParseErrorKind::InvalidNumber),
        };
        let exit = is_word(&t[4], "1") && w.inf_exit.is_none();
        let possessable = is_word(&t[11], "1");
        let fliph = is_word(&t[13], "1");
        let floating = is_word(&t[14], "1");
        let gpos = match self.place(parent, w.x, w.y, floating) {
            Ok(gpos) => gpos,
            Err(e) => return Err(e),
        };
        let id = self.game.cells().len();
        self.add_cell(
            Cell::Reference(
                Reference {
                    id,
                    gpos,
                    target_no: BlockNo(w.target),
                    exit,
                    inf_exit: w.inf_exit,
                    possessable,
                    fliph,
                },
            ),
        );
        self.enter_player(w.order, id);
        if let Some((no, degree)) = w.patch {
            self.patches.push(Patch { no: BlockNo(no), degree, target: BlockNo(w.target) });
        }
        Ok(())
    }

    /// Computes [`wall_line`].
    fn wall_line(&mut self, parent: usize, t: &Vec<Vec<u8>>) -> (r: Result<(), ParseErrorKind>)
        requires
            old(self)@.sound(),
            holds(old(self)@.game, parent),
        ensures
            match r {
                Ok(_) => wall_line(old(self)@, parent, views(t@)) == Ok::<Loading, ParseErrorKind>(final(self)@) && final(self)@.sound(),
                Err(e) => wall_line(old(self)@, parent, views(t@)) == Err::<Loading, ParseErrorKind>(e),
            },
    {
        assert(forall|k: int| 0 <= k < t@.len() ==> views(t@)[k] == t@[k]@);
        if t.len() < 6 {
            return Err(ParseErrorKind::InvalidWall);
        }
        let x = parse_i32(&t[1]);
        let y = parse_i32(&t[2]);
        let order = read_entrant(&t[3], &t[5]);
        let possessable = is_word(&t[4], "1");
        match (x, y, order) {
            (Some(x), Some(y), Some(order)) => {
                if parent == ROOT {
                    return Err(ParseErrorKind::WallOutsideOfBlock);
                }
                let gpos = match self.place(parent, x, y, false) {
                    Ok(gpos) => gpos,
                    Err(e) => return Err(e),
                };
                let id = self.game.cells().len();
                self.add_cell(Cell::Wall(Wall { id, gpos, possessable }));
                self.enter_player(order, id);
                Ok(())
            },
            _ => Err(ParseErrorKind::InvalidNumber),
        }
    }

    /// Computes [`floor_line`].
    fn floor_line(&mut self, parent: usize, t: &Vec<Vec<u8>>) -> (r: Result<(), ParseErrorKind>)
        requires
            old(self)@.sound(),
        ensures
            match r {
                Ok(_) => floor_line(old(self)@, parent, views(t@)) == Ok::<Loading, ParseErrorKind>(final(self)@) && final(self)@.sound(),
                Err(e) => floor_line(old(self)@, parent, views(t@)) == Err::<Loading, ParseErrorKind>(e),
            },
    {
        assert(forall|k: int| 0 <= k < t@.len() ==> views(t@)[k] == t@[k]@);
        if t.len() < 4 {
            return Err(ParseErrorKind::InvalidFloor);
        }
        let x = parse_i32(&t[1]);
        let y = parse_i32(&t[2]);
        match (x, y) {
            (Some(x), Some(y)) => {
                let button = is_word(&t[3], "Button");
                if !button && !is_word(&t[3], "PlayerButton") {
                    return Err(ParseErrorKind::UnknownFloorType);
                }
                self.game.push_goal(
                    Goal { gpos: GlobalPos { block_id: parent, pos: Pos(x, y) }, player: !button },
                );
                Ok(())
            },
            _ => Err(ParseErrorKind::InvalidNumber),
        }
    }

    /// Computes [`body_line`].
    fn body_line(&mut self, depth: usize, t: &Vec<Vec<u8>>) -> (r: Result<(), ParseErrorKind>)
        requires
            old(self)@.sound(),
        ensures
            match r {
                Ok(_) => body_line(old(self)@, depth as int, views(t@)) == Ok::<Loading, ParseErrorKind>(final(self)@)
                    && final(self)@.sound(),
                Err(e) => body_line(old(self)@, depth as int, views(t@)) == Err::<Loading, ParseErrorKind>(e),
            },
    {
        assert(forall|k: int| 0 <= k < t@.len() ==> views(t@)[k] == t@[k]@);
        if t.len() == 0 {
            return Ok(());
        }
        if depth > self.stack.len() {
            return Err(ParseErrorKind::InvalidIndentation);
        }
        let parent = if depth == 0 {
            ROOT
        } else {
            self.stack[depth - 1]
        };
        self.stack.truncate(depth);
        if is_word(&t[0], "Block") {
            self.block_line(parent, t)
        } else if is_word(&t[0], "Ref") {
            self.ref_line(parent, t)
        } else if is_word(&t[0], "Wall") {
            self.wall_line(parent, t)
        } else if is_word(&t[0], "Floor") {
            self.floor_line(parent, t)
        } else {
            Err(ParseErrorKind::UnknownObjectType)
        }
    }

    /// Computes [`load_line`].
    fn load_line(&mut self, line: &[u8]) -> (r: Result<(), ParseErrorKind>)
        requires
            old(self)@.sound(),
        ensures
            match r {
                Ok(_) => load_line(old(self)@, line@) == Ok::<Loading, ParseErrorKind>(final(self)@) && final(self)@.sound(),
                Err(e) => load_line(old(self)@, line@) == Err::<Loading, ParseErrorKind>(e),
            },
    {
        if super::text::same_bytes(line, "#".as_bytes()) {
            if self.versioned {
                self.header = false;
                return Ok(());
            }
            return Err(ParseErrorKind::UnsupportedVersion);
        }
        let tokens = tokenize(line);
        if self.header {
            self.header_line(&tokens)
        } else {
            let depth = leading_tabs(line);
            self.body_line(depth, &tokens)
        }
    }
}

/// Marking a block keeps a world sound.
pub proof fn lemma_tag(g: GameView, id: usize, no: BlockNo, degree: u32)
    requires
        shaped(g),
        g.positions_distinct(),
        references_resolve(g),
        id < g.cells.len(),
        g.cells[id as int] is Block,
    ensures
        shaped(g.with_tag(id, no, degree)),
        g.with_tag(id, no, degree).positions_distinct(),
        references_resolve(g.with_tag(id, no, degree)),
{
    let h = g.with_tag(id, no, degree);
    assert forall|i: int| 0 <= i < h.cells.len() implies {
        &&& (#[trigger] h.cells[i]).spec_id() == i
        &&& placed(h.cells, h.cells[i].spec_gpos())
        &&& (h.cells[i] matches Cell::Block(b) ==> (!b.filled ==> b.width >= 1 && b.height >= 1)
            && (!b.locked && !b.space ==> h.block_map.contains_key(b.block_no.0)))
    } by {
        let c = g.cells[i];
        assert(placed(g.cells, c.spec_gpos()));
        if c.spec_gpos().block_id != ROOT {
            let p = g.cells[c.spec_gpos().block_id as int];
            assert(p is Block);
        }
    }
    assert forall|n: i32| #[trigger] h.block_map.contains_key(n) implies h.block_map[n]
        < h.cells.len() && h.cells[h.block_map[n] as int] is Block
        && h.cells[h.block_map[n] as int]->Block_0.block_no.0 == n by {
        assert(g.cells[g.block_map[n] as int] is Block);
    }
    assert forall|i: int, j: int|
        0 <= i < j < h.cells.len() && (#[trigger] h.cells[i]).spec_gpos() == (
        #[trigger] h.cells[j]).spec_gpos() implies h.cells[i].spec_gpos().block_id == ROOT by {
        assert(g.cells[i].spec_gpos() == h.cells[i].spec_gpos());
        assert(g.cells[j].spec_gpos() == h.cells[j].spec_gpos());
    }
    assert forall|i: int| 0 <= i < h.cells.len() implies ((#[trigger] h.cells[i]) matches Cell::Reference(
        r,
    ) ==> h.block_map.contains_key(r.target_no.0)) by {
        assert(g.cells[i] is Reference ==> h.cells[i] == g.cells[i]);
    }
}

/// The players in the order of their places. Players with the same place
/// stay in the order in which they are given.
pub fn order_players(players: &Vec<Entrant>) -> (ids: Vec<usize>)
    ensures
        ids@ == player_ids_of(players@),
        ids@.len() == players@.len(),
        forall|i: int|
            0 <= i < ids@.len() ==> exists|k: int|
                0 <= k < players@.len() && players@[k].id == #[trigger] ids@[i],
{
    let mut list: Vec<Entrant> = Vec::new();
    let mut count: usize = 0;
    while count < players.len()
        invariant
            0 <= count <= players@.len(),
            list@ == in_order(players@, count as int),
            list@.len() == count,
            forall|i: int|
                0 <= i < list@.len() ==> exists|k: int|
                    0 <= k < players@.len() && players@[k] == #[trigger] list@[i],
        decreases players@.len() - count,
    {
        let entrant = players[count];
        let mut slot: usize = list.len();
        assert(list@.take(slot as int) =~= list@);
        while slot > 0 && list[slot - 1].order > entrant.order
            invariant
                0 <= slot <= list@.len(),
                slot_for(list@, entrant) == slot_for(list@.take(slot as int), entrant),
            decreases slot,
        {
            assert(list@.take(slot as int).drop_last() =~= list@.take(slot - 1));
            slot -= 1;
        }
        let ghost before = list@;
        list.insert(slot, entrant);
        proof {
            assert forall|i: int| 0 <= i < list@.len() implies exists|k: int|
                0 <= k < players@.len() && players@[k] == #[trigger] list@[i] by {
                if i < slot {
                    assert(list@[i] == before[i]);
                } else if i == slot {
                    assert(players@[count as int] == list@[i]);
                } else {
                    assert(list@[i] == before[i - 1]);
                }
            }
        }
        count += 1;
    }
    let mut ids: Vec<usize> = Vec::new();
    let mut at: usize = 0;
    while at < list.len()
        invariant
            0 <= at <= list@.len(),
            ids@.len() == at,
            forall|i: int| 0 <= i < at ==> ids@[i] == list@[i].id,
        decreases list@.len() - at,
    {
        ids.push(list[at].id);
        at += 1;
    }
    assert(ids@ =~= player_ids_of(players@));
    proof {
        assert forall|i: int| 0 <= i < ids@.len() implies exists|k: int|
            0 <= k < players@.len() && players@[k].id == #[trigger] ids@[i] by {
            let k = choose|k: int| 0 <= k < players@.len() && players@[k] == list@[i];
            assert(players@[k].id == ids@[i]);
        }
    }
    ids
}

impl Loader {
    /// Computes [`finished`].
    pub fn finish(self) -> (r: Result<Game, ParseError>)
        requires
            self@.sound(),
        ensures
            match r {
                Ok(game) => finished(self@) == Ok::<GameView, ParseError>(game@) && game.wf()
                    && game@.positions_distinct(),
                Err(e) => finished(self@) == Err::<GameView, ParseError>(e),
            },
    {
        if !self.versioned {
            return Err(ParseError { kind: ParseErrorKind::UnsupportedVersion, line: 0 });
        }
        let ghost st = self@;
        let mut game = self.game;
        let patches = self.patches;
        let players = self.players;
        // check that every reference names a block of the level
        let mut i: usize = 0;
        while i < game.cells().len()
            invariant
                0 <= i <= game@.cells.len(),
                st == self@,
                st.versioned,
                game@ == st.game,
                forall|k: int|
                    0 <= k < i ==> ((#[trigger] game@.cells[k]) matches Cell::Reference(r)
                        ==> game@.block_map.contains_key(r.target_no.0)),
            decreases game@.cells.len() - i,
        {
            if let Cell::Reference(reference) = game.cells()[i] {
                if game.block_id_of(reference.target_no).is_none() {
                    return Err(
                        ParseError { kind: ParseErrorKind::InvalidReferenceTarget, line: 0 },
                    );
                }
            }
            i += 1;
        }
        // put the marks for endless descents on their blocks
        let ghost read = game@;
        let mut at: usize = 0;
        while at < patches.len()
            invariant
                0 <= at <= patches@.len(),
                st == self@,
                st.versioned,
                read == st.game,
                patches@ == st.patches,
                references_resolve(read),
                shaped(game@),
                game@.positions_distinct(),
                references_resolve(game@),
                game@.cells.len() == read.cells.len(),
                game@.player_ids.len() == 0,
                patched(read, patches@, 0) == patched(game@, patches@, at as int),
            decreases patches@.len() - at,
        {
            let patch = patches[at];
            match game.block_id_of(patch.target) {
                None => {
                    return Err(
                        ParseError { kind: ParseErrorKind::InvalidInfEnterTarget, line: 0 },
                    );
                },
                Some(id) => {
                    proof {
                        lemma_tag(game@, id, patch.no, patch.degree);
                    }
                    game.tag_inf_enter(id, patch.no, patch.degree);
                },
            }
            at += 1;
        }
        // sort the players by their places
        let ids = order_players(&players);
        game.set_player_ids(ids);
        proof {
            assert forall|j: int| 0 <= j < game@.player_ids.len() implies #[trigger] game@.player_ids[j]
                < game@.cells.len() by {
                let k = choose|k: int|
                    0 <= k < players@.len() && players@[k].id == game@.player_ids[j];
                assert(players@[k].id < read.cells.len());
            }
        }
        Ok(game)
    }
}

impl Game {
    /// Reads a level.
    ///
    /// The header holds, one to a line: `version 4`, which must be there;
    /// `attempt_order` with the interactions `push`, `enter`, `eat` and
    /// `possess` in the order in which they are tried, with commas between
    /// them; `shed`; `inner_push`. Other lines of the header are passed over.
    ///
    /// The body holds, one to a line, each below the block that it lies in and
    /// one tab deeper:
    ///
    /// ```plain
    /// Block x y id width height hue sat val zoomfactor fillwithwalls player possessable playerorder fliph floatinspace specialeffect
    /// Ref x y id exitblock infexit infexitnum infenter infenternum infenterid player possessable playerorder fliph floatinspace specialeffect
    /// Wall x y player possessable playerorder
    /// Floor x y type
    /// ```
    pub fn from_str(text: &str) -> (r: Result<Game, ParseError>)
        ensures
            match r {
                Ok(game) => parsed(text.spec_bytes()) == Ok::<GameView, ParseError>(game@)
                    && game.wf() && game@.positions_distinct(),
                Err(e) => parsed(text.spec_bytes()) == Err::<GameView, ParseError>(e),
            },
    {
        let bytes = text.as_bytes();
        let mut loader = Loader::new();
        let mut at: usize = 0;
        let mut line: usize = 0;
        while at < bytes.len()
            invariant
                0 <= at <= bytes@.len(),
                line <= at,
                bytes@ == text.spec_bytes(),
                loader@.sound(),
                load_from(start(), bytes@, 0, 0) == load_from(
                    loader@,
                    bytes@,
                    at as int,
                    line as nat,
                ),
            decreases bytes@.len() - at,
        {
            let end = find_line_end(bytes, at);
            let row = line_of(bytes, at, end);
            match loader.load_line(row) {
                Err(kind) => return Err(ParseError { kind, line: line + 1 }),
                Ok(_) => {},
            }
            at = if end < bytes.len() {
                end + 1
            } else {
                bytes.len()
            };
            line += 1;
        }
        loader.finish()
    }
}

} // verus!
