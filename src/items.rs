//! The item catalogue: what an item does when it is used.
use vstd::prelude::*;
use crate::types::{CardinalDirection, Direction, Position, TickDuration};

verus! {

/// Largest pattern extent and projectile speed that an item may have: 2^29, so that
/// every cell an item reaches from a cell of the map, in one tick, lies within `i32`.
pub const MAX_REACH: u32 = 0x2000_0000;

/// A usable item as configured.
#[derive(Debug)]
pub struct Item {
    pub name: String,
    pub cooldown: TickDuration,
    pub quantity: ItemQuantity,
    /// Relative chance of being drawn into a chest.
    pub draw_weight: u32,
    pub data: ItemData,
}

impl Clone for Item {
    fn clone(&self) -> (r: Item)
        ensures
            r == *self,
    {
        Item {
            name: self.name.clone(),
            cooldown: self.cooldown,
            quantity: self.quantity,
            draw_weight: self.draw_weight,
            data: self.data,
        }
    }
}

impl Item {
    pub open spec fn wf(self) -> bool {
        self.data.wf()
    }
}

/// What an item does.
#[derive(Debug, Clone, Copy, PartialEq, Eq, Structural)]
pub enum ItemData {
    Buff { effect: BuffEffect, power: u32 },
    Projectile { tick_lifetime: u32, damage: u32, speed: u32, pattern: ItemProjectilePattern },
    Placed { range: u32, object: ItemPlacedObject, pattern: ItemPlacedPattern },
    Nuke { damage: u32 },
}

impl ItemData {
    /// Extents and speeds stay within `MAX_REACH`.
    pub open spec fn wf(self) -> bool {
        match self {
            ItemData::Projectile { speed, .. } => speed <= MAX_REACH,
            ItemData::Placed { pattern, .. } => pattern.wf(),
            _ => true,
        }
    }
}

#[derive(Debug, Clone, Copy, PartialEq, Eq, Structural)]
pub enum BuffEffect {
    Heal,
    Haste,
    Score,
    Shield,
    Damage,
    HealAndShield,
}

#[derive(Debug, Clone, Copy, PartialEq, Eq, Structural)]
pub enum ItemQuantity {
    Infinite,
    Finite(u32),
}

#[derive(Debug, Clone, Copy, PartialEq, Eq, Structural)]
pub enum ItemPlacedObject {
    Wall,
    Trap { damage: u32 },
}

#[derive(Debug, Clone, Copy, PartialEq, Eq, Structural)]
pub enum ItemPlacedPattern {
    Single,
    Rectangle { width: u32, height: u32 },
    Box { radius: u32 },
}

/// The cell at an offset from `p`.
pub open spec fn shifted(p: Position, dx: int, dy: int) -> Position {
    Position { x: (p.x + dx) as i32, y: (p.y + dy) as i32 }
}

/// A cell far enough from the edge of `i32` for any pattern to be laid around it.
pub open spec fn roomy(p: Position) -> bool {
    i32::MIN + MAX_REACH < p.x < i32::MAX - MAX_REACH && i32::MIN + MAX_REACH < p.y < i32::MAX
        - MAX_REACH
}

/// Cells of a `w` by `h` rectangle of half-extents `hw`, `hh` around `p`, row by row.
pub open spec fn rectangle_cells(p: Position, hw: int, hh: int) -> Seq<Position> {
    Seq::new(
        ((2 * hw + 1) * (2 * hh + 1)) as nat,
        |k: int| shifted(p, -hw + k % (2 * hw + 1), -hh + k / (2 * hw + 1)),
    )
}

/// Outline of the square of radius `r` around `p`: the top and bottom rows pairwise
/// from left to right, then the left and right columns pairwise from top to bottom.
pub open spec fn box_cells(p: Position, r: int) -> Seq<Position> {
    box_rows(p, r) + box_cols(p, r)
}

/// Top and bottom rows of the outline, pairwise from left to right.
pub open spec fn box_rows(p: Position, r: int) -> Seq<Position> {
    Seq::new(
        (2 * (2 * r + 1)) as nat,
        |k: int| if k % 2 == 0 { shifted(p, -r + k / 2, r) } else { shifted(p, -r + k / 2, -r) },
    )
}

/// Right and left columns of the outline without the corners, pairwise from top to bottom.
pub open spec fn box_cols(p: Position, r: int) -> Seq<Position> {
    Seq::new(
        (if r > 0 { 2 * (2 * r - 1) } else { 0 }) as nat,
        |k: int| if k % 2 == 0 { shifted(p, r, -r + 1 + k / 2) } else { shifted(p, -r, -r + 1 + k / 2) },
    )
}

impl ItemPlacedPattern {
    pub open spec fn wf(self) -> bool {
        match self {
            ItemPlacedPattern::Rectangle { width, height } => width <= MAX_REACH && height <= MAX_REACH,
            ItemPlacedPattern::Box { radius } => radius <= MAX_REACH,
            _ => true,
        }
    }

    /// The cells that the pattern covers around `pos`.
    pub open spec fn cells(self, pos: Position, vertical: bool) -> Seq<Position> {
        match self {
            ItemPlacedPattern::Single => seq![pos],
            ItemPlacedPattern::Rectangle { width, height } => {
                let hw = width as int / 2;
                let hh = height as int / 2;
                if vertical {
                    rectangle_cells(pos, hh, hw)
                } else {
                    rectangle_cells(pos, hw, hh)
                }
            },
            ItemPlacedPattern::Box { radius } => box_cells(pos, radius as int),
        }
    }

    pub fn get_positions(&self, pos: &Position, vertical: bool) -> (r: Vec<Position>)
        requires
            self.wf(),
            roomy(*pos),
        ensures
            r@ == self.cells(*pos, vertical),
    {
        let mut positions: Vec<Position> = Vec::new();
        match *self {
            ItemPlacedPattern::Single => {
                positions.push(*pos);
                assert(positions@ =~= seq![*pos]);
            },
            ItemPlacedPattern::Rectangle { width, height } => {
                let mut half_width: i32 = (width / 2) as i32;
                let mut half_height: i32 = (height / 2) as i32;
                if vertical {
                    let t = half_width;
                    half_width = half_height;
                    half_height = t;
                }
                let ghost hw = half_width as int;
                let ghost hh = half_height as int;
                let ghost s = 2 * hw + 1;
                let mut y: i32 = -half_height;
                assert((y + hh) * s == 0) by (nonlinear_arith)
                    requires y + hh == 0;
                while y <= half_height
                    invariant
                        hw == half_width,
                        hh == half_height,
                        s == 2 * hw + 1,
                        0 <= hw <= MAX_REACH / 2,
                        0 <= hh <= MAX_REACH / 2,
                        -hh <= y <= hh + 1,
                        roomy(*pos),
                        positions@.len() == (y + hh) * s,
                        forall|k: int|
                            0 <= k < positions@.len() ==> #[trigger] positions@[k] == shifted(
                                *pos,
                                -hw + k % s,
                                -hh + k / s,
                            ),
                    decreases hh + 1 - y,
                {
                    let mut x: i32 = -half_width;
                    while x <= half_width
                        invariant
                            hw == half_width,
                            hh == half_height,
                            s == 2 * hw + 1,
                            0 <= hw <= MAX_REACH / 2,
                            0 <= hh <= MAX_REACH / 2,
                            -hh <= y <= hh,
                            -hw <= x <= hw + 1,
                            roomy(*pos),
                            positions@.len() == (y + hh) * s + (x + hw),
                            forall|k: int|
                                0 <= k < positions@.len() ==> #[trigger] positions@[k] == shifted(
                                    *pos,
                                    -hw + k % s,
                                    -hh + k / s,
                                ),
                        decreases hw + 1 - x,
                    {
                        proof {
                            let k = (y + hh) * s + (x + hw);
                            let row = y + hh;
                            let col = x + hw;
                            assert(k % s == col && k / s == row) by (nonlinear_arith)
                                requires
                                    k == row * s + col,
                                    0 <= col < s,
                                    0 <= row,
                            ;
                        }
                        positions.push(Position::new(pos.x + x, pos.y + y));
                        x = x + 1;
                    }
                    proof {
                        assert((y + 1 + hh) * s == (y + hh) * s + s) by (nonlinear_arith);
                    }
                    y = y + 1;
                }
                proof {
                    let r = if vertical { rectangle_cells(*pos, height as int / 2, width as int / 2) }
                        else { rectangle_cells(*pos, width as int / 2, height as int / 2) };
                    assert(positions@.len() == (2 * hw + 1) * (2 * hh + 1)) by (nonlinear_arith)
                        requires positions@.len() == (hh + 1 + hh) * s, s == 2 * hw + 1;
                    assert(positions@ =~= r);
                }
            },
            ItemPlacedPattern::Box { radius } => {
                let r: i32 = radius as i32;
                let ghost rows = box_rows(*pos, r as int);
                let ghost cols = box_cols(*pos, r as int);
                let mut x: i32 = -r;
                while x <= r
                    invariant
                        0 <= r <= MAX_REACH,
                        -r <= x <= r + 1,
                        roomy(*pos),
                        rows == box_rows(*pos, r as int),
                        rows.len() == 2 * (2 * r + 1),
                        positions@.len() == 2 * (x + r),
                        forall|k: int| 0 <= k < positions@.len() ==> #[trigger] positions@[k] == rows[k],
                    decreases r + 1 - x,
                {
                    let ghost k0 = 2 * (x + r);
                    positions.push(Position::new(pos.x + x, pos.y + r));
                    positions.push(Position::new(pos.x + x, pos.y - r));
                    assert(k0 % 2 == 0 && k0 / 2 == x + r);
                    assert((k0 + 1) % 2 == 1 && (k0 + 1) / 2 == x + r);
                    assert(positions@[k0] == rows[k0]);
                    assert(positions@[k0 + 1] == rows[k0 + 1]);
                    x = x + 1;
                }
                let mut y: i32 = -r + 1;
                while y < r
                    invariant
                        0 <= r <= MAX_REACH,
                        -r + 1 <= y,
                        r > 0 ==> y <= r,
                        roomy(*pos),
                        rows == box_rows(*pos, r as int),
                        cols == box_cols(*pos, r as int),
                        rows.len() == 2 * (2 * r + 1),
                        cols.len() == (if r > 0 { 2 * (2 * r - 1) } else { 0 }),
                        positions@.len() == rows.len() + (if r > 0 { 2 * (y + r - 1) } else { 0 }),
                        forall|k: int| 0 <= k < rows.len() ==> #[trigger] positions@[k] == rows[k],
                        forall|k: int|
                            rows.len() <= k < positions@.len() ==> #[trigger] positions@[k] == cols[k - rows.len()],
                    decreases r - y,
                {
                    let ghost k0 = 2 * (y + r - 1);
                    let ghost base = rows.len() as int;
                    positions.push(Position::new(pos.x + r, pos.y + y));
                    positions.push(Position::new(pos.x - r, pos.y + y));
                    assert(k0 % 2 == 0 && k0 / 2 == y + r - 1);
                    assert((k0 + 1) % 2 == 1 && (k0 + 1) / 2 == y + r - 1);
                    assert(positions@[base + k0] == cols[k0]);
                    assert(positions@[base + k0 + 1] == cols[k0 + 1]);
                    y = y + 1;
                }
                assert(positions@ =~= rows + cols);
            },
        }
        positions
    }
}

#[derive(Debug, Clone, Copy, PartialEq, Eq, Structural)]
pub enum ItemProjectilePattern {
    Single,
    Line,
    Star,
    Box,
}

impl ItemProjectilePattern {
    /// The projectiles that the pattern launches from `p` towards `d`.
    pub open spec fn launches(self, p: Position, d: Direction) -> Seq<(Position, Direction)> {
        let target = p.step(d);
        match self {
            ItemProjectilePattern::Single => seq![(target, d)],
            ItemProjectilePattern::Line => {
                let sides = match d {
                    Direction::Up | Direction::Down => seq![
                        (target.step(Direction::Left), d),
                        (target.step(Direction::Right), d),
                    ],
                    Direction::Left | Direction::Right => seq![
                        (target.step(Direction::Up), d),
                        (target.step(Direction::Down), d),
                    ],
                    Direction::UpLeft | Direction::UpRight => seq![
                        (p.step(Direction::Up), d),
                        (target.step(Direction::Down), d),
                    ],
                    Direction::DownLeft | Direction::DownRight => seq![
                        (p.step(Direction::Down), d),
                        (target.step(Direction::Up), d),
                    ],
                };
                sides.push((target, d))
            },
            ItemProjectilePattern::Star => seq![
                (p.step(Direction::Up), Direction::Up),
                (p.step(Direction::Down), Direction::Down),
                (p.step(Direction::Left), Direction::Left),
                (p.step(Direction::Right), Direction::Right),
            ],
            ItemProjectilePattern::Box => seq![
                (p.step(Direction::Up), Direction::Up),
                (p.step(Direction::Down), Direction::Down),
                (p.step(Direction::Left), Direction::Left),
                (p.step(Direction::Right), Direction::Right),
                (p.step(Direction::UpLeft), Direction::UpLeft),
                (p.step(Direction::UpRight), Direction::UpRight),
                (p.step(Direction::DownLeft), Direction::DownLeft),
                (p.step(Direction::DownRight), Direction::DownRight),
            ],
        }
    }

    pub fn get_positions(&self, player_pos: &Position, direction: Direction) -> (r: Vec<(Position, Direction)>)
        requires
            i32::MIN + 2 < player_pos.x < i32::MAX - 2,
            i32::MIN + 2 < player_pos.y < i32::MAX - 2,
        ensures
            r@ == self.launches(*player_pos, direction),
    {
        let mut positions: Vec<(Position, Direction)> = Vec::new();
        match *self {
            ItemProjectilePattern::Single => {
                positions.push((player_pos.with_offset(direction), direction));
            },
            ItemProjectilePattern::Line => {
                let target = player_pos.with_offset(direction);
                match direction {
                    Direction::Up | Direction::Down => {
                        positions.push((target.with_offset(Direction::Left), direction));
                        positions.push((target.with_offset(Direction::Right), direction));
                    },
                    Direction::Left | Direction::Right => {
                        positions.push((target.with_offset(Direction::Up), direction));
                        positions.push((target.with_offset(Direction::Down), direction));
                    },
                    Direction::UpLeft | Direction::UpRight => {
                        positions.push((player_pos.with_offset(Direction::Up), direction));
                        positions.push((target.with_offset(Direction::Down), direction));
                    },
                    Direction::DownLeft | Direction::DownRight => {
                        positions.push((player_pos.with_offset(Direction::Down), direction));
                        positions.push((target.with_offset(Direction::Up), direction));
                    },
                }
                positions.push((target, direction));
            },
            ItemProjectilePattern::Star => {
                let all = CardinalDirection::all();
                let mut i: usize = 0;
                while i < 4
                    invariant
                        0 <= i <= 4,
                        i32::MIN + 2 < player_pos.x < i32::MAX - 2,
                        i32::MIN + 2 < player_pos.y < i32::MAX - 2,
                        all@ == seq![
                            CardinalDirection::Up,
                            CardinalDirection::Down,
                            CardinalDirection::Left,
                            CardinalDirection::Right,
                        ],
                        positions@.len() == i,
                        forall|k: int|
                            0 <= k < i ==> #[trigger] positions@[k] == (
                                player_pos.step(all@[k].spec_to_direction()),
                                all@[k].spec_to_direction(),
                            ),
                    decreases 4 - i,
                {
                    let d = all[i].to_direction();
                    positions.push((player_pos.with_offset(d), d));
                    i = i + 1;
                }
            },
            ItemProjectilePattern::Box => {
                let all = Direction::all();
                let mut i: usize = 0;
                while i < 8
                    invariant
                        0 <= i <= 8,
                        i32::MIN + 2 < player_pos.x < i32::MAX - 2,
                        i32::MIN + 2 < player_pos.y < i32::MAX - 2,
                        all@ == seq![
                            Direction::Up,
                            Direction::Down,
                            Direction::Left,
                            Direction::Right,
                            Direction::UpLeft,
                            Direction::UpRight,
                            Direction::DownLeft,
                            Direction::DownRight,
                        ],
                        positions@.len() == i,
                        forall|k: int|
                            0 <= k < i ==> #[trigger] positions@[k] == (player_pos.step(all@[k]), all@[k]),
                    decreases 8 - i,
                {
                    let d = all[i];
                    positions.push((player_pos.with_offset(d), d));
                    i = i + 1;
                }
            },
        }
        assert(positions@ =~= self.launches(*player_pos, direction));
        positions
    }
}

} // verus!
