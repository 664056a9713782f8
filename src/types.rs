use vstd::prelude::*;

verus! {

/// Number of ticks, used for cooldowns and lifetimes.
pub type TickDuration = u32;

/// A cell of the integer grid.
#[derive(Debug, Clone, Copy, PartialEq, Eq, Hash, Structural)]
pub struct Position {
    pub x: i32,
    pub y: i32,
}

/// Absolute difference of two integers.
pub open spec fn dist(a: int, b: int) -> int {
    if a >= b { a - b } else { b - a }
}

/// Chebyshev (king-move) distance between two cells.
pub open spec fn chebyshev(a: Position, b: Position) -> int {
    let dx = dist(a.x as int, b.x as int);
    let dy = dist(a.y as int, b.y as int);
    if dx >= dy { dx } else { dy }
}

/// One of the eight king-move directions.
#[derive(Debug, Clone, Copy, PartialEq, Eq, Structural)]
pub enum Direction {
    Up,
    Down,
    Left,
    Right,
    UpLeft,
    UpRight,
    DownLeft,
    DownRight,
}

/// One of the four axis directions.
#[derive(Debug, Clone, Copy, PartialEq, Eq, Structural)]
pub enum CardinalDirection {
    Up,
    Down,
    Left,
    Right,
}

impl Direction {
    /// Horizontal component of the direction.
    pub open spec fn dx(self) -> int {
        match self {
            Direction::Left | Direction::UpLeft | Direction::DownLeft => -1,
            Direction::Right | Direction::UpRight | Direction::DownRight => 1,
            _ => 0,
        }
    }

    /// Vertical component of the direction (y grows downwards).
    pub open spec fn dy(self) -> int {
        match self {
            Direction::Up | Direction::UpLeft | Direction::UpRight => -1,
            Direction::Down | Direction::DownLeft | Direction::DownRight => 1,
            _ => 0,
        }
    }

    pub fn all() -> (r: [Direction; 8])
        ensures
            r@ == seq![
                Direction::Up,
                Direction::Down,
                Direction::Left,
                Direction::Right,
                Direction::UpLeft,
                Direction::UpRight,
                Direction::DownLeft,
                Direction::DownRight,
            ],
    {
        [
            Direction::Up,
            Direction::Down,
            Direction::Left,
            Direction::Right,
            Direction::UpLeft,
            Direction::UpRight,
            Direction::DownLeft,
            Direction::DownRight,
        ]
    }
}

impl CardinalDirection {
    /// The same direction among the eight.
    pub open spec fn spec_to_direction(self) -> Direction {
        match self {
            CardinalDirection::Up => Direction::Up,
            CardinalDirection::Down => Direction::Down,
            CardinalDirection::Left => Direction::Left,
            CardinalDirection::Right => Direction::Right,
        }
    }

    pub fn to_direction(self) -> (r: Direction)
        ensures
            r == self.spec_to_direction(),
    {
        match self {
            CardinalDirection::Up => Direction::Up,
            CardinalDirection::Down => Direction::Down,
            CardinalDirection::Left => Direction::Left,
            CardinalDirection::Right => Direction::Right,
        }
    }

    pub fn all() -> (r: [CardinalDirection; 4])
        ensures
            r@ == seq![
                CardinalDirection::Up,
                CardinalDirection::Down,
                CardinalDirection::Left,
                CardinalDirection::Right,
            ],
    {
        [CardinalDirection::Up, CardinalDirection::Down, CardinalDirection::Left, CardinalDirection::Right]
    }
}

impl From<CardinalDirection> for Direction {
    fn from(direction: CardinalDirection) -> (r: Direction) {
        direction.to_direction()
    }
}

impl vstd::std_specs::convert::FromSpecImpl<CardinalDirection> for Direction {
    open spec fn obeys_from_spec() -> bool {
        true
    }

    open spec fn from_spec(v: CardinalDirection) -> Direction {
        v.spec_to_direction()
    }
}

impl Position {
    /// Moving one step from this cell cannot overflow a coordinate.
    pub open spec fn can_step(self) -> bool {
        i32::MIN < self.x < i32::MAX && i32::MIN < self.y < i32::MAX
    }

    /// The neighbouring cell in a direction.
    pub open spec fn step(self, d: Direction) -> Position {
        Position { x: (self.x + d.dx()) as i32, y: (self.y + d.dy()) as i32 }
    }

    /// The cell `k` steps away in a direction.
    pub open spec fn ray(self, d: Direction, k: int) -> Position {
        Position { x: (self.x + k * d.dx()) as i32, y: (self.y + k * d.dy()) as i32 }
    }

    pub fn new(x: i32, y: i32) -> (r: Position)
        ensures
            r.x == x,
            r.y == y,
    {
        Position { x, y }
    }

    /// Whether this cell lies in the square of the given radius around `center`.
    pub fn is_inside(&self, center: &Position, radius: u32) -> (r: bool)
        ensures
            r == (dist(self.x as int, center.x as int) <= radius && dist(
                self.y as int,
                center.y as int,
            ) <= radius),
            r == (chebyshev(*self, *center) <= radius),
    {
        let dx: i64 = if self.x >= center.x {
            self.x as i64 - center.x as i64
        } else {
            center.x as i64 - self.x as i64
        };
        let dy: i64 = if self.y >= center.y {
            self.y as i64 - center.y as i64
        } else {
            center.y as i64 - self.y as i64
        };
        dx <= radius as i64 && dy <= radius as i64
    }

    /// Every cell of the square of the given radius around this cell, row by row.
    /// The square lies within `i32`, and its cells can be counted by a 32-bit `usize`.
    pub fn region(&self, radius: u32) -> (r: Vec<(i32, i32)>)
        requires
            radius < 0x8000,
            i32::MIN + radius <= self.x <= i32::MAX - radius,
            i32::MIN + radius <= self.y <= i32::MAX - radius,
        ensures
            r@.len() == (2 * radius + 1) * (2 * radius + 1),
            forall|k: int|
                0 <= k < r@.len() ==> #[trigger] r@[k] == (
                    (self.x - radius + k % (2 * radius + 1)) as i32,
                    (self.y - radius + k / (2 * radius + 1)) as i32,
                ),
    {
        let side: i32 = 2 * radius as i32 + 1;
        let ghost s = side as int;
        let mut region: Vec<(i32, i32)> = Vec::new();
        let mut row: i32 = 0;
        while row < side
            invariant
                s == 2 * radius + 1,
                side == s,
                0 <= row <= side,
                radius < 0x8000,
                i32::MIN + radius <= self.x <= i32::MAX - radius,
                i32::MIN + radius <= self.y <= i32::MAX - radius,
                region@.len() == row * s,
                forall|k: int|
                    0 <= k < region@.len() ==> #[trigger] region@[k] == (
                        (self.x - radius + k % s) as i32,
                        (self.y - radius + k / s) as i32,
                    ),
            decreases side - row,
        {
            let mut col: i32 = 0;
            while col < side
                invariant
                    s == 2 * radius + 1,
                    side == s,
                    0 <= row < side,
                    0 <= col <= side,
                    radius < 0x8000,
                    i32::MIN + radius <= self.x <= i32::MAX - radius,
                    i32::MIN + radius <= self.y <= i32::MAX - radius,
                    region@.len() == row * s + col,
                    forall|k: int|
                        0 <= k < region@.len() ==> #[trigger] region@[k] == (
                            (self.x - radius + k % s) as i32,
                            (self.y - radius + k / s) as i32,
                        ),
                decreases side - col,
            {
                proof {
                    let k = row * s + col;
                    assert(k % s == col && k / s == row) by (nonlinear_arith)
                        requires k == row * s + col, 0 <= col < s, 0 <= row;
                }
                region.push((self.x - radius as i32 + col, self.y - radius as i32 + row));
                col = col + 1;
            }
            proof {
                assert((row + 1) * s == row * s + s) by (nonlinear_arith);
            }
            row = row + 1;
        }
        region
    }

    /// The neighbouring cell in a direction.
    pub fn with_offset(&self, direction: Direction) -> (r: Position)
        requires
            self.can_step(),
        ensures
            r == self.step(direction),
    {
        match direction {
            Direction::Up => Position::new(self.x, self.y - 1),
            Direction::Down => Position::new(self.x, self.y + 1),
            Direction::Left => Position::new(self.x - 1, self.y),
            Direction::Right => Position::new(self.x + 1, self.y),
            Direction::UpLeft => Position::new(self.x - 1, self.y - 1),
            Direction::UpRight => Position::new(self.x + 1, self.y - 1),
            Direction::DownLeft => Position::new(self.x - 1, self.y + 1),
            Direction::DownRight => Position::new(self.x + 1, self.y + 1),
        }
    }
}

/// Opaque token that identifies a team.
#[derive(Debug, Eq, Hash)]
pub struct PlayerId(pub String);

impl View for PlayerId {
    type V = Seq<char>;

    open spec fn view(&self) -> Seq<char> {
        self.0@
    }
}

impl PartialEq for PlayerId {
    fn eq(&self, other: &PlayerId) -> (r: bool) {
        self.0 == other.0
    }
}

impl vstd::std_specs::cmp::PartialEqSpecImpl for PlayerId {
    open spec fn obeys_eq_spec() -> bool {
        true
    }

    open spec fn eq_spec(&self, other: &PlayerId) -> bool {
        self@ == other@
    }
}

impl Clone for PlayerId {
    fn clone(&self) -> (r: PlayerId)
        ensures
            r == *self,
    {
        PlayerId(self.0.clone())
    }
}

impl PlayerId {
    /// A fresh random token of 21 URL-safe characters.
    pub fn new() -> (r: PlayerId)
        ensures
            r@.len() == 21,
    {
        PlayerId(crate::random::fresh_token())
    }

    pub fn from_string(value: String) -> (r: PlayerId)
        ensures
            r@ == value@,
    {
        PlayerId(value)
    }

    pub fn as_string(&self) -> (r: &String)
        ensures
            r@ == self@,
    {
        &self.0
    }
}

impl From<String> for PlayerId {
    fn from(value: String) -> (r: PlayerId) {
        PlayerId(value)
    }
}

impl vstd::std_specs::convert::FromSpecImpl<String> for PlayerId {
    open spec fn obeys_from_spec() -> bool {
        true
    }

    open spec fn from_spec(v: String) -> PlayerId {
        PlayerId(v)
    }
}

/// A notable happening of one tick.
#[derive(Debug)]
pub enum Event {
    Kill { killer: String, victim: String, weapon: Option<String> },
    Nuke { player: String },
    GameEnd { winner: Option<String> },
}

impl Event {
    pub fn new_kill(killer: String, victim: String, weapon: Option<String>) -> (r: Event)
        ensures
            r == (Event::Kill { killer, victim, weapon }),
    {
        Event::Kill { killer, victim, weapon }
    }

    pub fn new_nuke(player: String) -> (r: Event)
        ensures
            r == (Event::Nuke { player }),
    {
        Event::Nuke { player }
    }

    pub fn new_game_end(winner: Option<String>) -> (r: Event)
        ensures
            r == (Event::GameEnd { winner }),
    {
        Event::GameEnd { winner }
    }
}

/// Where the firewall starts when a map is generated.
#[derive(Debug, Clone, Copy, PartialEq, Eq, Structural)]
pub enum FirewallPattern {
    OneCorner,
    FourCorner,
    Middle,
    NoFirewall,
}

/// One line of the ranked scoreboard.
#[derive(Debug)]
pub struct ScoreboardTeam {
    pub name: String,
    pub score: i32,
}

} // verus!
