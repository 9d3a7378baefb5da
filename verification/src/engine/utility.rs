//! Positions and directions.

use vstd::prelude::*;

verus! {

/// A position `(x, y)` in the local grid of a block. `y` grows upward.
#[derive(Copy, Clone, Debug, PartialEq, Eq, Structural)]
pub struct Pos(pub i32, pub i32);

/// A position in the world: the cell id of the containing block, and the
/// local position inside it. The container of a cell that lives at the top
/// level is [`ROOT`].
#[derive(Copy, Clone, Debug, PartialEq, Eq, Structural)]
pub struct GlobalPos {
    pub block_id: usize,
    pub pos: Pos,
}

/// The container id of a cell that lives nowhere.
pub const ROOT: usize = usize::MAX;

#[derive(Copy, Clone, Debug, PartialEq, Eq, Hash, Structural)]
pub enum Direction {
    Up,
    Down,
    Left,
    Right,
}

impl Pos {
    /// Whether one step towards `direction` stays within the machine's
    /// integers.
    pub open spec fn can_go(self, direction: Direction) -> bool {
        match direction {
            Direction::Up => self.1 < i32::MAX,
            Direction::Down => self.1 > i32::MIN,
            Direction::Left => self.0 > i32::MIN,
            Direction::Right => self.0 < i32::MAX,
        }
    }

    /// The neighbouring position one step towards `direction`.
    pub open spec fn neighbour(self, direction: Direction) -> Pos {
        match direction {
            Direction::Up => Pos(self.0, (self.1 + 1) as i32),
            Direction::Down => Pos(self.0, (self.1 - 1) as i32),
            Direction::Left => Pos((self.0 - 1) as i32, self.1),
            Direction::Right => Pos((self.0 + 1) as i32, self.1),
        }
    }

    /// Moves this position one step towards `direction`.
    pub fn go(&mut self, direction: Direction)
        requires
            old(self).can_go(direction),
        ensures
            *final(self) == old(self).neighbour(direction),
    {
        match direction {
            Direction::Up => self.1 += 1,
            Direction::Down => self.1 -= 1,
            Direction::Left => self.0 -= 1,
            Direction::Right => self.0 += 1,
        }
    }

    /// The position one step towards `direction`.
    pub fn towards(self, direction: Direction) -> (r: Pos)
        requires
            self.can_go(direction),
        ensures
            r == self.neighbour(direction),
    {
        let mut next = self;
        next.go(direction);
        next
    }
}

impl Direction {
    /// The direction that undoes a step in this one.
    pub open spec fn reversed(self) -> Direction {
        match self {
            Direction::Up => Direction::Down,
            Direction::Down => Direction::Up,
            Direction::Left => Direction::Right,
            Direction::Right => Direction::Left,
        }
    }

    /// The mirror image of this direction under a horizontal flip: left and
    /// right trade places, up and down stay.
    pub open spec fn mirrored(self) -> Direction {
        match self {
            Direction::Left => Direction::Right,
            Direction::Right => Direction::Left,
            d => d,
        }
    }

    /// Whether a step in this direction crosses the top or bottom edge.
    pub open spec fn is_vertical(self) -> bool {
        self == Direction::Up || self == Direction::Down
    }

    pub fn opposite(&self) -> (r: Direction)
        ensures
            r == self.reversed(),
    {
        match self {
            Direction::Up => Direction::Down,
            Direction::Down => Direction::Up,
            Direction::Left => Direction::Right,
            Direction::Right => Direction::Left,
        }
    }

    /// Exec counterpart of [`Direction::mirrored`].
    pub fn mirror(self) -> (r: Direction)
        ensures
            r == self.mirrored(),
    {
        match self {
            Direction::Left => Direction::Right,
            Direction::Right => Direction::Left,
            d => d,
        }
    }
}

} // verus!
