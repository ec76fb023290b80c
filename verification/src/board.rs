//! The board as the codec sees it: two pawns, whose turn it is, and the grid
//! of wall slots.
//!
//! Neither direction of the codec stores how far a pawn moves. The encoder
//! keeps only the direction of a move, and the decoder finds the landing
//! square again from where the two pawns stand. Both replay the game on a
//! [`PositionTracker`], whose mathematical model is [`Track`].

use vstd::prelude::*;

verus! {

/// A square in contracts: column and row as mathematical integers.
pub struct Square {
    pub column: int,
    pub row: int,
}

/// A square of the board. Columns 1 to 9 are the letters `a` to `i`.
#[derive(Clone, Copy, Debug, PartialEq, Eq, Structural)]
pub struct Coordinate {
    pub column: i32,
    pub row: i32,
}

impl View for Coordinate {
    type V = Square;

    open spec fn view(&self) -> Square {
        Square { column: self.column as int, row: self.row as int }
    }
}

/// The four ways a pawn moves.
#[derive(Clone, Copy, Debug, PartialEq, Eq, Structural)]
pub enum Direction {
    North,
    East,
    South,
    West,
}

/// One of the two players; `First` opens the game.
#[derive(Clone, Copy, Debug, PartialEq, Eq, Structural)]
pub enum Player {
    First,
    Second,
}

/// The direction of a move by `(dx, dy)`: one or two squares along one axis.
/// Any other move has none.
pub open spec fn classify_delta(dx: int, dy: int) -> Option<Direction> {
    if dx == 0 && (dy == 1 || dy == 2) {
        Some(Direction::North)
    } else if dy == 0 && (dx == 1 || dx == 2) {
        Some(Direction::East)
    } else if dx == 0 && (dy == -1 || dy == -2) {
        Some(Direction::South)
    } else if dy == 0 && (dx == -1 || dx == -2) {
        Some(Direction::West)
    } else {
        None
    }
}

impl Direction {
    /// The three-bit number that stands for the direction in a code.
    pub open spec fn code_spec(self) -> nat {
        match self {
            Direction::North => 0,
            Direction::East => 2,
            Direction::South => 4,
            Direction::West => 6,
        }
    }

    /// The direction that a three-bit number stands for; the odd numbers
    /// stand for none.
    pub open spec fn from_code_spec(code: nat) -> Option<Direction> {
        if code == 0 {
            Some(Direction::North)
        } else if code == 2 {
            Some(Direction::East)
        } else if code == 4 {
            Some(Direction::South)
        } else if code == 6 {
            Some(Direction::West)
        } else {
            None
        }
    }

    /// One step in the direction, as a change of column and row.
    pub open spec fn unit(self) -> Square {
        match self {
            Direction::North => Square { column: 0, row: 1 },
            Direction::East => Square { column: 1, row: 0 },
            Direction::South => Square { column: 0, row: -1 },
            Direction::West => Square { column: -1, row: 0 },
        }
    }

    /// The three-bit number that stands for the direction in a code.
    pub fn code(self) -> (code: u8)
        ensures
            code == self.code_spec(),
    {
        match self {
            Direction::North => 0,
            Direction::East => 2,
            Direction::South => 4,
            Direction::West => 6,
        }
    }

    /// The direction that `code` stands for, if any.
    pub fn from_code(code: u64) -> (direction: Option<Direction>)
        ensures
            direction == Direction::from_code_spec(code as nat),
    {
        if code == 0 {
            Some(Direction::North)
        } else if code == 2 {
            Some(Direction::East)
        } else if code == 4 {
            Some(Direction::South)
        } else if code == 6 {
            Some(Direction::West)
        } else {
            None
        }
    }
}

impl Square {
    /// The square `steps` steps from this one in `direction`.
    pub open spec fn stepped(self, direction: Direction, steps: int) -> Square {
        Square {
            column: self.column + steps * direction.unit().column,
            row: self.row + steps * direction.unit().row,
        }
    }
}

/// The number of the wall slot at `anchor`: the slots of the 8 by 8 grid are
/// counted from 0 along the rows, the columns running fastest.
pub open spec fn wall_slot(anchor: Square) -> int {
    (anchor.column - 1) + (anchor.row - 1) * 8
}

/// The anchor of wall slot `slot`.
pub open spec fn slot_square(slot: int) -> Square {
    Square { column: slot % 8 + 1, row: slot / 8 + 1 }
}

/// A slot number as an unsigned machine word of 64 bits: a negative number
/// wraps round.
pub open spec fn slot_word(slot: int) -> nat {
    if slot >= 0 {
        slot as nat
    } else {
        (slot + 0x1_0000_0000_0000_0000) as nat
    }
}

/// Whether `anchor` lies on the 8 by 8 grid of wall slots.
pub open spec fn on_wall_grid(anchor: Square) -> bool {
    1 <= anchor.column <= 8 && 1 <= anchor.row <= 8
}

/// The slot number of `anchor` as a machine word.
pub fn wall_slot_word(anchor: Coordinate) -> (word: u64)
    ensures
        word == slot_word(wall_slot(anchor@)),
{
    let column: i64 = anchor.column as i64;
    let row: i64 = anchor.row as i64;
    let slot: i64 = (column - 1) + (row - 1) * 8;
    if slot >= 0 {
        slot as u64
    } else {
        u64::MAX - ((-(slot + 1)) as u64)
    }
}

/// The anchor of wall slot `slot`.
pub fn slot_anchor(slot: u64) -> (anchor: Coordinate)
    requires
        slot < 64,
    ensures
        anchor@ == slot_square(slot as int),
        on_wall_grid(anchor@),
{
    Coordinate { column: (slot % 8) as i32 + 1, row: (slot / 8) as i32 + 1 }
}

/// The state of a game in contracts: where the two pawns stand and who moves
/// next.
pub struct Track {
    pub first: Square,
    pub second: Square,
    pub turn: Player,
}

impl Track {
    /// The opening position: both pawns in column 5, the first player in row
    /// 1 and to move, the second in row 9.
    pub open spec fn start() -> Track {
        Track {
            first: Square { column: 5, row: 1 },
            second: Square { column: 5, row: 9 },
            turn: Player::First,
        }
    }

    /// The square of the player to move.
    pub open spec fn mover(self) -> Square {
        match self.turn {
            Player::First => self.first,
            Player::Second => self.second,
        }
    }

    /// The square of the other player.
    pub open spec fn waiter(self) -> Square {
        match self.turn {
            Player::First => self.second,
            Player::Second => self.first,
        }
    }

    /// The direction in which the player to move reaches `target`, if the
    /// move is one or two squares along one axis.
    pub open spec fn pawn_direction(self, target: Square) -> Option<Direction> {
        classify_delta(target.column - self.mover().column, target.row - self.mover().row)
    }

    /// Where the player to move lands when moving in `direction`: on the next
    /// square, or, where the other pawn stands there, on the square behind it.
    pub open spec fn landing(self, direction: Direction) -> Square {
        if self.mover().stepped(direction, 1) == self.waiter() {
            self.mover().stepped(direction, 2)
        } else {
            self.mover().stepped(direction, 1)
        }
    }

    /// The state after the player to move has gone to `target`.
    pub open spec fn moved_to(self, target: Square) -> Track {
        match self.turn {
            Player::First => Track { first: target, second: self.second, turn: Player::Second },
            Player::Second => Track { first: self.first, second: target, turn: Player::First },
        }
    }

    /// The state after the player to move has placed a wall.
    pub open spec fn passed(self) -> Track {
        self.moved_to(self.mover())
    }

    /// Whether `target` is a move that the landing rule finds again: a step
    /// to the next square where the other pawn does not stand, or a jump over
    /// the other pawn to the square behind it.
    pub open spec fn is_step_or_jump(self, target: Square) -> bool {
        exists|direction: Direction|
            {
                ||| (#[trigger] self.mover().stepped(direction, 1)) == target && target
                    != self.waiter()
                ||| self.mover().stepped(direction, 1) == self.waiter() && self.mover().stepped(
                    direction,
                    2,
                ) == target
            }
    }

    /// Whether a step from the mover's square stays within the machine's
    /// integers.
    pub open spec fn can_step(self) -> bool {
        &&& i32::MIN + 2 <= self.mover().column <= i32::MAX - 2
        &&& i32::MIN + 2 <= self.mover().row <= i32::MAX - 2
    }
}

/// The two pawns and whose turn it is. One codec run owns one tracker and
/// updates it once for every move it reads.
#[derive(Clone, Copy, Debug, PartialEq, Eq, Structural)]
pub struct PositionTracker {
    pub first: Coordinate,
    pub second: Coordinate,
    pub turn: Player,
}

impl View for PositionTracker {
    type V = Track;

    open spec fn view(&self) -> Track {
        Track { first: self.first@, second: self.second@, turn: self.turn }
    }
}

impl PositionTracker {
    /// A tracker at the opening position.
    pub fn new() -> (tracker: PositionTracker)
        ensures
            tracker@ == Track::start(),
    {
        PositionTracker {
            first: Coordinate { column: 5, row: 1 },
            second: Coordinate { column: 5, row: 9 },
            turn: Player::First,
        }
    }

    /// The square of the player to move.
    pub fn mover(&self) -> (square: Coordinate)
        ensures
            square@ == self@.mover(),
    {
        match self.turn {
            Player::First => self.first,
            Player::Second => self.second,
        }
    }

    /// The square of the other player.
    pub fn waiter(&self) -> (square: Coordinate)
        ensures
            square@ == self@.waiter(),
    {
        match self.turn {
            Player::First => self.second,
            Player::Second => self.first,
        }
    }

    /// Puts the player to move on `target` and hands the turn over.
    pub fn move_to(&mut self, target: Coordinate)
        ensures
            final(self)@ == old(self)@.moved_to(target@),
    {
        match self.turn {
            Player::First => {
                self.first = target;
                self.turn = Player::Second;
            },
            Player::Second => {
                self.second = target;
                self.turn = Player::First;
            },
        }
    }

    /// Hands the turn over after a wall: no pawn moves.
    pub fn pass_turn(&mut self)
        ensures
            final(self)@ == old(self)@.passed(),
    {
        let stay = self.mover();
        self.move_to(stay);
    }

    /// Classifies the move of the player to move to `target`. Where it has a
    /// direction, the pawn is put on `target` itself and the turn passes;
    /// where it has none, nothing changes.
    pub fn apply_pawn_delta(&mut self, target: Coordinate) -> (direction: Option<Direction>)
        ensures
            direction == old(self)@.pawn_direction(target@),
            direction is Some ==> final(self)@ == old(self)@.moved_to(target@),
            direction is None ==> *final(self) == *old(self),
    {
        let from = self.mover();
        let dx: i64 = target.column as i64 - from.column as i64;
        let dy: i64 = target.row as i64 - from.row as i64;
        let direction = if dx == 0 && (dy == 1 || dy == 2) {
            Some(Direction::North)
        } else if dy == 0 && (dx == 1 || dx == 2) {
            Some(Direction::East)
        } else if dx == 0 && (dy == -1 || dy == -2) {
            Some(Direction::South)
        } else if dy == 0 && (dx == -1 || dx == -2) {
            Some(Direction::West)
        } else {
            None
        };
        if direction.is_some() {
            self.move_to(target);
        }
        direction
    }

    /// Moves the player to move in `direction`, over the other pawn where it
    /// stands on the next square, and hands the turn over. Returns the
    /// landing square.
    pub fn resolve_pawn_landing(&mut self, direction: Direction) -> (landing: Coordinate)
        requires
            old(self)@.can_step(),
        ensures
            landing@ == old(self)@.landing(direction),
            final(self)@ == old(self)@.moved_to(landing@),
    {
        let from = self.mover();
        let other = self.waiter();
        let (dx, dy): (i32, i32) = match direction {
            Direction::North => (0, 1),
            Direction::East => (1, 0),
            Direction::South => (0, -1),
            Direction::West => (-1, 0),
        };
        let next = Coordinate { column: from.column + dx, row: from.row + dy };
        let landing = if next.column == other.column && next.row == other.row {
            Coordinate { column: next.column + dx, row: next.row + dy }
        } else {
            next
        };
        self.move_to(landing);
        landing
    }
}

} // verus!
