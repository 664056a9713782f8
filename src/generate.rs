//! Map generation: terrain, firewall seeds, chests and spawn points.
use vstd::prelude::*;
use rand::rngs::StdRng;
use crate::entities::{Object, clone_items};
use crate::game::Game;
use crate::items::Item;
use crate::map::{GameMap, lemma_cell_index};
use crate::player::loadout;
use crate::random::{draw_below, draw_between, draw_u32, draw_weighted, seeded_rng};
use crate::types::{FirewallPattern, Position};

verus! {

/// What the noise field made of a cell.
#[derive(Debug, Clone, Copy, PartialEq, Eq, Structural)]
pub enum Terrain {
    Open,
    Wall,
    Via,
}

/// Starts a generation from a seed: the generator, and the seed of the noise field,
/// which is the generator's first draw.
pub fn noise_source(seed: u64) -> (StdRng, u32) {
    let mut rng = seeded_rng(seed);
    let noise_seed = draw_u32(&mut rng);
    (rng, noise_seed)
}

/// Corner `k` of a `w` by `h` map: top left, bottom left, top right, bottom right.
pub open spec fn corner(w: int, h: int, k: int) -> (int, int) {
    if k == 0 {
        (0, 0)
    } else if k == 1 {
        (0, h - 1)
    } else if k == 2 {
        (w - 1, 0)
    } else {
        (w - 1, h - 1)
    }
}

/// Cell `k` of the four centre cells of a `w` by `h` map.
pub open spec fn middle(w: int, h: int, k: int) -> (int, int) {
    let mx = w / 2;
    let my = h / 2;
    if k == 0 {
        (mx - 1, my - 1)
    } else if k == 1 {
        (mx - 1, my)
    } else if k == 2 {
        (mx, my - 1)
    } else {
        (mx, my)
    }
}

/// The cell `(x, y)`.
pub open spec fn at(c: (int, int)) -> Position {
    Position { x: c.0 as i32, y: c.1 as i32 }
}

/// Removing element `i` by swapping in the last one keeps the others, and only them.
proof fn lemma_swap_remove<T>(s: Seq<T>, i: int)
    requires
        0 <= i < s.len(),
        forall|a: int, b: int| 0 <= a < b < s.len() ==> s[a] != s[b],
    ensures
        ({
            let n = s.update(i, s.last()).drop_last();
            &&& n.len() == s.len() - 1
            &&& forall|a: int| 0 <= a < n.len() ==> #[trigger] n[a] == s[if a == i { s.len() - 1 } else { a }]
            &&& forall|a: int, b: int| 0 <= a < b < n.len() ==> n[a] != n[b]
            &&& forall|a: int| 0 <= a < n.len() ==> n[a] != s[i]
        }),
{
    let n = s.update(i, s.last()).drop_last();
    assert forall|a: int, b: int| 0 <= a < b < n.len() implies n[a] != n[b] by {
        let a2 = if a == i { s.len() - 1 } else { a };
        let b2 = if b == i { s.len() - 1 } else { b };
        assert(n[a] == s[a2]);
        assert(n[b] == s[b2]);
        if a2 < b2 {
            assert(s[a2] != s[b2]);
        } else {
            assert(s[b2] != s[a2]);
        }
    }
    assert forall|a: int| 0 <= a < n.len() implies n[a] != s[i] by {
        let a2 = if a == i { s.len() - 1 } else { a };
        assert(n[a] == s[a2]);
        if a2 < i {
            assert(s[a2] != s[i]);
        } else {
            assert(s[i] != s[a2]);
        }
    }
}

impl Game {
    /// Sets the firewall on `(x, y)` when that cell is inside the map.
    fn ignite(&mut self, x: i64, y: i64)
        requires
            old(self).wf(),
        ensures
            final(self).wf(),
            final(self).players == old(self).players,
            final(self).config == old(self).config,
            final(self).map.width == old(self).map.width,
            final(self).map.height == old(self).map.height,
            final(self).map.vias == old(self).map.vias,
            final(self).map.objects == old(self).map.objects,
            final(self).map.projectiles == old(self).map.projectiles,
            forall|p: Position|
                final(self).map.fire_at(p) == (old(self).map.fire_at(p) || (final(self).map.in_bounds(p) && p.x == x
                    && p.y == y)),
    {
        if 0 <= x && x < self.map.width as i64 && 0 <= y && y < self.map.height as i64 {
            let cell = Position::new(x as i32, y as i32);
            let c = self.map.cell_index(&cell);
            let ghost before = self.map;
            self.map.firewall.set(c, true);
            proof {
                let w = before.width as int;
                let h = before.height as int;
                assert forall|p: Position| self.map.fire_at(p) == (before.fire_at(p) || (self.map.in_bounds(p)
                    && p.x == x && p.y == y)) by {
                    if self.map.in_bounds(p) {
                        lemma_cell_index(w, h, p.x as int, p.y as int);
                        if self.map.idx(p) == c as int {
                            assert(p.y == cell.y) by (nonlinear_arith)
                                requires p.y * w + p.x == cell.y * w + cell.x, 0 <= p.x < w, 0 <= cell.x < w, 0 <= p.y, 0 <= cell.y;
                        }
                    }
                }
            }
        }
    }
}

/// The terrain of an in-bounds cell of a `w`-wide grid.
pub open spec fn terrain_at(t: Seq<Terrain>, w: int, p: Position) -> Terrain {
    t[p.y * w + p.x]
}

/// The open cells of a map with that terrain.
pub open spec fn open_cells(m: GameMap, t: Seq<Terrain>) -> Set<Position> {
    Set::new(|p: Position| m.in_bounds(p) && terrain_at(t, m.width as int, p) == Terrain::Open)
}

/// Distinct in-bounds cells have distinct grid indices.
pub proof fn lemma_idx_injective(m: GameMap, p: Position, q: Position)
    requires
        m.in_bounds(p),
        m.in_bounds(q),
        m.idx(p) == m.idx(q),
    ensures
        p == q,
{
    let w = m.width as int;
    assert(p.y == q.y) by (nonlinear_arith)
        requires p.y * w + p.x == q.y * w + q.x, 0 <= p.x < w, 0 <= q.x < w, 0 <= p.y, 0 <= q.y;
}

impl Game {
    /// Builds walls and vias from the terrain, and lists the open cells in
    /// row-major order.
    pub fn lay_terrain(&mut self, terrain: &Vec<Terrain>) -> (r: Vec<Position>)
        requires
            old(self).wf(),
            old(self).map.objects@.len() == 0,
            forall|i: int| 0 <= i < old(self).map.vias@.len() ==> !(#[trigger] old(self).map.vias@[i]),
            terrain@.len() == old(self).map.width * old(self).map.height,
        ensures
            final(self).wf(),
            final(self).players == old(self).players,
            final(self).config == old(self).config,
            final(self).map.width == old(self).map.width,
            final(self).map.height == old(self).map.height,
            final(self).map.firewall == old(self).map.firewall,
            final(self).map.projectiles == old(self).map.projectiles,
            forall|k: int| 0 <= k < final(self).map.objects@.len() ==> (#[trigger] final(self).map.objects@[k]) is Wall
                && final(self).map.objects@[k]->Wall_0.hp == crate::entities::WALL_HP,
            forall|p: Position| final(self).map.wall_at(p) == (final(self).map.in_bounds(p) && terrain_at(terrain@, final(self).map.width as int, p) == Terrain::Wall),
            forall|p: Position| final(self).map.via_at(p) == (final(self).map.in_bounds(p) && terrain_at(terrain@, final(self).map.width as int, p) == Terrain::Via),
            r@.no_duplicates(),
            r@.to_set() == open_cells(final(self).map, terrain@),
            forall|a: int| 0 <= a < r@.len() ==> final(self).map.in_bounds(#[trigger] r@[a]) && terrain_at(terrain@, final(self).map.width as int, r@[a]) == Terrain::Open,
            forall|a: int, k: int| 0 <= a < r@.len() && 0 <= k < final(self).map.objects@.len() ==> (#[trigger] final(self).map.objects@[k]).pos() != #[trigger] r@[a],
    {
        let w = self.map.width;
        let h = self.map.height;
        let ghost m0 = self.map;
        let mut available: Vec<Position> = Vec::new();
        let mut y: u32 = 0;
        let mut c: usize = 0;
        proof {
            assert(w * h <= crate::config::MAX_SIDE * crate::config::MAX_SIDE) by (nonlinear_arith)
                requires w <= crate::config::MAX_SIDE, h <= crate::config::MAX_SIDE;
            assert(0 * w == 0);
        }
        while y < h
            invariant
                self.wf(),
                self.players == old(self).players,
                self.config == old(self).config,
                self.map.width == w && w == m0.width,
                self.map.height == h && h == m0.height,
                self.map.firewall == m0.firewall,
                self.map.projectiles == m0.projectiles,
                terrain@.len() == w * h,
                0 <= y <= h,
                c == y * w,
                w * h <= crate::config::MAX_SIDE * crate::config::MAX_SIDE,
                c <= w * h,
                forall|k: int| 0 <= k < self.map.objects@.len() ==> (#[trigger] self.map.objects@[k]) is Wall
                    && self.map.objects@[k]->Wall_0.hp == crate::entities::WALL_HP
                    && self.map.idx(self.map.objects@[k].pos()) < c,
                forall|p: Position| self.map.wall_at(p) == (self.map.in_bounds(p) && self.map.idx(p) < c && terrain@[self.map.idx(p)] == Terrain::Wall),
                forall|i: int| 0 <= i < w * h ==> (#[trigger] self.map.vias@[i]) == (i < c && terrain@[i] == Terrain::Via),
                available@.no_duplicates(),
                forall|p: Position| available@.contains(p) == (self.map.in_bounds(p) && self.map.idx(p) < c && terrain@[self.map.idx(p)] == Terrain::Open),
            decreases h - y,
        {
            proof {
                assert(y * w + w <= w * h) by (nonlinear_arith) requires y + 1 <= h;
            }
            let mut x: u32 = 0;
            while x < w
                invariant
                    self.wf(),
                    self.players == old(self).players,
                    self.config == old(self).config,
                    self.map.width == w && w == m0.width,
                    self.map.height == h && h == m0.height,
                    self.map.firewall == m0.firewall,
                    self.map.projectiles == m0.projectiles,
                    terrain@.len() == w * h,
                    0 <= y < h,
                    0 <= x <= w,
                    c == y * w + x,
                    y * w + w <= w * h,
                    w * h <= crate::config::MAX_SIDE * crate::config::MAX_SIDE,
                    forall|k: int| 0 <= k < self.map.objects@.len() ==> (#[trigger] self.map.objects@[k]) is Wall
                        && self.map.objects@[k]->Wall_0.hp == crate::entities::WALL_HP
                        && self.map.idx(self.map.objects@[k].pos()) < c,
                    forall|p: Position| self.map.wall_at(p) == (self.map.in_bounds(p) && self.map.idx(p) < c && terrain@[self.map.idx(p)] == Terrain::Wall),
                    forall|i: int| 0 <= i < w * h ==> (#[trigger] self.map.vias@[i]) == (i < c && terrain@[i] == Terrain::Via),
                    available@.no_duplicates(),
                    forall|p: Position| available@.contains(p) == (self.map.in_bounds(p) && self.map.idx(p) < c && terrain@[self.map.idx(p)] == Terrain::Open),
                decreases w - x,
            {
                let cell = Position::new(x as i32, y as i32);
                let ci = self.map.cell_index(&cell);
                assert(ci == c);
                let ghost before = *self;
                let ghost av0 = available@;
                match terrain[ci] {
                    Terrain::Wall => {
                        self.map.objects.push(Object::new_wall(cell));
                        proof {
                            assert forall|p: Position| self.map.wall_at(p) == (self.map.in_bounds(p) && self.map.idx(p) < c + 1 && terrain@[self.map.idx(p)] == Terrain::Wall) by {
                                if self.map.wall_at(p) {
                                    let k = choose|k: int| 0 <= k < self.map.objects@.len() && (#[trigger] self.map.objects@[k]).is_wall_at(p);
                                    if k < before.map.objects@.len() {
                                        assert(before.map.objects@[k] == self.map.objects@[k]);
                                        assert(before.map.objects@[k].is_wall_at(p));
                                    }
                                }
                                if self.map.in_bounds(p) && self.map.idx(p) < c + 1 && terrain@[self.map.idx(p)] == Terrain::Wall {
                                    if self.map.idx(p) == c {
                                        lemma_idx_injective(self.map, p, cell);
                                        assert(self.map.objects@[self.map.objects@.len() - 1].is_wall_at(p));
                                    } else {
                                        assert(before.map.wall_at(p));
                                        let k = choose|k: int| 0 <= k < before.map.objects@.len() && (#[trigger] before.map.objects@[k]).is_wall_at(p);
                                        assert(self.map.objects@[k] == before.map.objects@[k]);
                                    }
                                }
                            }
                            assert forall|q: Position| available@.contains(q) == (self.map.in_bounds(q) && self.map.idx(q) < c + 1 && terrain@[self.map.idx(q)] == Terrain::Open) by {
                                if self.map.in_bounds(q) && self.map.idx(q) == c {
                                    lemma_idx_injective(self.map, q, cell);
                                }
                            }
                        }
                    },
                    Terrain::Via => {
                        self.map.vias.set(ci, true);
                        proof {
                            assert forall|q: Position| before.map.wall_at(q) == (self.map.in_bounds(q) && self.map.idx(q) < c + 1 && terrain@[self.map.idx(q)] == Terrain::Wall) by {
                                if self.map.in_bounds(q) && self.map.idx(q) == c {
                                    lemma_idx_injective(self.map, q, cell);
                                }
                            }
                            assert forall|q: Position| self.map.wall_at(q) == (self.map.in_bounds(q) && self.map.idx(q) < c + 1 && terrain@[self.map.idx(q)] == Terrain::Wall) by {
                                if self.map.wall_at(q) {
                                    let k = choose|k: int| 0 <= k < self.map.objects@.len() && (#[trigger] self.map.objects@[k]).is_wall_at(q);
                                    assert(before.map.objects@[k].is_wall_at(q));
                                }
                                if before.map.wall_at(q) {
                                    let k = choose|k: int| 0 <= k < before.map.objects@.len() && (#[trigger] before.map.objects@[k]).is_wall_at(q);
                                    assert(self.map.objects@[k].is_wall_at(q));
                                }
                                assert(self.map.wall_at(q) == before.map.wall_at(q));
                            }
                            assert forall|q: Position| available@.contains(q) == (self.map.in_bounds(q) && self.map.idx(q) < c + 1 && terrain@[self.map.idx(q)] == Terrain::Open) by {
                                if self.map.in_bounds(q) && self.map.idx(q) == c {
                                    lemma_idx_injective(self.map, q, cell);
                                }
                            }
                        }
                    },
                    Terrain::Open => {
                        available.push(cell);
                        proof {
                            assert(!av0.contains(cell));
                            assert forall|a: int, b: int| 0 <= a < b < available@.len() implies available@[a] != available@[b] by {
                                if b == available@.len() - 1 {
                                    assert(av0.contains(available@[a]));
                                }
                            }
                            assert forall|q: Position| available@.contains(q) == (self.map.in_bounds(q) && self.map.idx(q) < c + 1 && terrain@[self.map.idx(q)] == Terrain::Open) by {
                                if available@.contains(q) && q != cell {
                                    let a = choose|a: int| 0 <= a < available@.len() && available@[a] == q;
                                    assert(av0[a] == q);
                                    assert(av0.contains(q));
                                }
                                if q != cell && self.map.in_bounds(q) && self.map.idx(q) < c + 1 && terrain@[self.map.idx(q)] == Terrain::Open {
                                    if self.map.idx(q) == c {
                                        lemma_idx_injective(self.map, q, cell);
                                    }
                                    assert(av0.contains(q));
                                    let a = choose|a: int| 0 <= a < av0.len() && av0[a] == q;
                                    assert(available@[a] == q);
                                }
                                if q == cell {
                                    assert(available@[available@.len() - 1] == q);
                                }
                            }
                            assert forall|q: Position| self.map.wall_at(q) == (self.map.in_bounds(q) && self.map.idx(q) < c + 1 && terrain@[self.map.idx(q)] == Terrain::Wall) by {
                                if self.map.in_bounds(q) && self.map.idx(q) == c {
                                    lemma_idx_injective(self.map, q, cell);
                                }
                            }
                        }
                    },
                }
                x = x + 1;
                c = c + 1;
            }
            proof {
                assert((y + 1) * w == y * w + w) by (nonlinear_arith);
                assert((y + 1) * w <= w * h) by (nonlinear_arith) requires y + 1 <= h;
            }
            y = y + 1;
        }
        proof {
            let m = self.map;
            assert(c == w * h) by (nonlinear_arith) requires c == y * w, y == h;
            assert forall|p: Position| m.in_bounds(p) implies m.idx(p) < c by {
                lemma_cell_index(w as int, h as int, p.x as int, p.y as int);
            }
            assert forall|a: int, k: int| 0 <= a < available@.len() && 0 <= k < m.objects@.len() implies (#[trigger] m.objects@[k]).pos() != #[trigger] available@[a] by {
                let p = available@[a];
                assert(available@.contains(p));
                if m.objects@[k].pos() == p {
                    assert(m.objects@[k].is_wall_at(p));
                    assert(m.wall_at(p));
                }
            }
            assert forall|a: int| 0 <= a < available@.len() implies m.in_bounds(#[trigger] available@[a]) && terrain_at(terrain@, w as int, available@[a]) == Terrain::Open by {
                assert(available@.contains(available@[a]));
            }
            assert(available@.to_set() =~= open_cells(m, terrain@));
            assert forall|p: Position| m.via_at(p) == (m.in_bounds(p) && terrain_at(terrain@, w as int, p) == Terrain::Via) by {
                if m.in_bounds(p) {
                    lemma_cell_index(w as int, h as int, p.x as int, p.y as int);
                }
            }
        }
        available
    }
}

/// Whether `p` is one of the cells `f(0)` to `f(3)`, given as four pairs.
pub open spec fn among(p: Position, a: (int, int), b: (int, int), c: (int, int), d: (int, int)) -> bool {
    p == at(a) || p == at(b) || p == at(c) || p == at(d)
}

/// The firewall cells that a pattern starts with, on a `w` by `h` map; for one
/// corner, `k` says which.
pub open spec fn seeded(pattern: FirewallPattern, w: int, h: int, k: int, p: Position) -> bool {
    match pattern {
        FirewallPattern::OneCorner => p == at(corner(w, h, k)),
        FirewallPattern::FourCorner => among(p, corner(w, h, 0), corner(w, h, 1), corner(w, h, 2), corner(w, h, 3)),
        FirewallPattern::Middle => among(p, middle(w, h, 0), middle(w, h, 1), middle(w, h, 2), middle(w, h, 3)),
        FirewallPattern::NoFirewall => false,
    }
}

/// A chest holding one to three items drawn from distinct places of the pool (none
/// when the pool is empty).
pub open spec fn chest_ok(o: Object, pool: Seq<Item>) -> bool {
    &&& o is Chest
    &&& o->Chest_0.opened_by@.len() == 0
    &&& o->Chest_0.items@.len() <= 3
    &&& pool.len() > 0 ==> o->Chest_0.items@.len() >= 1
    &&& drawn_from(o->Chest_0.items@, pool)
    &&& forall|j: int| 0 <= j < o->Chest_0.items@.len() ==> pool.contains(#[trigger] o->Chest_0.items@[j])
}

/// `ix` picks `items` out of `pool` at distinct places.
pub open spec fn picked_at(ix: Seq<int>, items: Seq<Item>, pool: Seq<Item>) -> bool {
    &&& ix.len() == items.len()
    &&& forall|a: int, b: int| 0 <= a < b < ix.len() ==> ix[a] != ix[b]
    &&& forall|j: int| 0 <= j < ix.len() ==> 0 <= #[trigger] ix[j] < pool.len() && items[j] == pool[ix[j]]
}

/// The items are entries of the pool taken at distinct places.
pub open spec fn drawn_from(items: Seq<Item>, pool: Seq<Item>) -> bool {
    exists|ix: Seq<int>| #[trigger] picked_at(ix, items, pool)
}

/// The objects are `n` walls at full health followed by as many chests as the
/// configuration allows on the open cells, each on an open cell.
pub open spec fn laid_out(objects: Seq<Object>, n: int, config: crate::config::WorldGenConfig, open: Set<Position>) -> bool {
    let chests = if config.chest_max_number < open.len() { config.chest_max_number as int } else { open.len() as int };
    &&& 0 <= n
    &&& objects.len() == n + chests
    &&& forall|k: int| 0 <= k < n ==> (#[trigger] objects[k]) is Wall && objects[k]->Wall_0.hp == crate::entities::WALL_HP
    &&& forall|k: int| n <= k < objects.len() ==> chest_ok(#[trigger] objects[k], config.chest_items@) && open.contains(objects[k].pos())
}

/// The firewall of `m` is exactly what the pattern starts with (`k` picking the corner).
pub open spec fn fire_matches(m: GameMap, pattern: FirewallPattern, k: int) -> bool {
    forall|p: Position| #[trigger] m.fire_at(p) == (m.in_bounds(p) && seeded(pattern, m.width as int, m.height as int, k, p))
}

impl Game {
    /// Lights the firewall cells of the configured pattern on a map without fire.
    pub fn seed_firewall(&mut self, rng: &mut StdRng) -> (k: Ghost<int>)
        requires
            old(self).wf(),
            forall|p: Position| !old(self).map.fire_at(p),
        ensures
            final(self).wf(),
            final(self).players == old(self).players,
            final(self).config == old(self).config,
            final(self).map.width == old(self).map.width,
            final(self).map.height == old(self).map.height,
            final(self).map.vias == old(self).map.vias,
            final(self).map.objects == old(self).map.objects,
            final(self).map.projectiles == old(self).map.projectiles,
            0 <= k@ < 4,
            forall|p: Position|
                final(self).map.fire_at(p) == (final(self).map.in_bounds(p) && seeded(
                    old(self).config.world_gen.firewall_pattern,
                    old(self).map.width as int,
                    old(self).map.height as int,
                    k@,
                    p,
                )),
    {
        let w = self.map.width as i64;
        let h = self.map.height as i64;
        let ghost wi = w as int;
        let ghost hi = h as int;
        match self.config.world_gen.firewall_pattern {
            FirewallPattern::OneCorner => {
                let k = draw_below(rng, 4);
                let (x, y) = if k == 0 {
                    (0, 0)
                } else if k == 1 {
                    (0, h - 1)
                } else if k == 2 {
                    (w - 1, 0)
                } else {
                    (w - 1, h - 1)
                };
                self.ignite(x, y);
                Ghost(k as int)
            },
            FirewallPattern::FourCorner => {
                self.ignite(0, 0);
                self.ignite(0, h - 1);
                self.ignite(w - 1, 0);
                self.ignite(w - 1, h - 1);
                Ghost(0)
            },
            FirewallPattern::Middle => {
                let mx = w / 2;
                let my = h / 2;
                self.ignite(mx - 1, my - 1);
                self.ignite(mx - 1, my);
                self.ignite(mx, my - 1);
                self.ignite(mx, my);
                Ghost(0)
            },
            FirewallPattern::NoFirewall => Ghost(0),
        }
    }
}

impl Game {
    /// Draws the loot of one chest: one to three distinct items of the pool, by weight.
    fn draw_loot(&self, rng: &mut StdRng, weights: &Vec<u32>) -> (r: Vec<Item>)
        requires
            self.config.wf(),
            weights@.len() == self.config.world_gen.chest_items@.len(),
        ensures
            r@.len() <= 3,
            self.config.world_gen.chest_items@.len() > 0 ==> r@.len() >= 1,
            drawn_from(r@, self.config.world_gen.chest_items@),
            forall|j: int| 0 <= j < r@.len() ==> self.config.world_gen.chest_items@.contains(#[trigger] r@[j]),
    {
        let pool = &self.config.world_gen.chest_items;
        let count = draw_between(rng, 1, 3);
        let amount = if count < pool.len() { count } else { pool.len() };
        let picks = draw_weighted(rng, weights, amount);
        let mut items: Vec<Item> = Vec::new();
        let mut i: usize = 0;
        while i < picks.len()
            invariant
                0 <= i <= picks@.len(),
                picks@.len() == amount,
                amount <= 3,
                items@.len() == i,
                forall|q: int| 0 <= q < picks@.len() ==> picks@[q] < pool@.len(),
                forall|a: int, b: int| 0 <= a < b < picks@.len() ==> picks@[a] != picks@[b],
                forall|j: int| 0 <= j < items@.len() ==> pool@.contains(#[trigger] items@[j]),
                forall|j: int| 0 <= j < items@.len() ==> #[trigger] items@[j] == pool@[picks@[j] as int],
            decreases picks@.len() - i,
        {
            let it = pool[picks[i]].clone();
            assert(pool@[picks@[i as int] as int] == it);
            items.push(it);
            proof {
                assert forall|j: int| 0 <= j < items@.len() implies pool@.contains(#[trigger] items@[j]) by {
                    if j == i {
                        assert(pool@[picks@[i as int] as int] == items@[j]);
                    }
                }
            }
            i = i + 1;
        }
        proof {
            let ix = Seq::new(picks@.len(), |j: int| picks@[j] as int);
            assert(picked_at(ix, items@, pool@));
        }
        items
    }

    /// Places up to the configured number of chests on cells drawn from `available`,
    /// taking those cells out of it.
    pub fn place_chests(&mut self, rng: &mut StdRng, available: &mut Vec<Position>)
        requires
            old(self).wf(),
            old(available)@.no_duplicates(),
            forall|a: int| 0 <= a < old(available)@.len() ==> old(self).map.in_bounds(#[trigger] old(available)@[a]),
            forall|a: int, k: int|
                0 <= a < old(available)@.len() && 0 <= k < old(self).map.objects@.len() ==> (
                #[trigger] old(self).map.objects@[k]).pos() != #[trigger] old(available)@[a],
        ensures
            final(self).wf(),
            final(self).players == old(self).players,
            final(self).config == old(self).config,
            final(self).map.same_terrain(old(self).map),
            final(self).map.projectiles == old(self).map.projectiles,
            ({
                let n = old(self).map.objects@.len();
                let placed = if old(self).config.world_gen.chest_max_number < old(available)@.len() {
                    old(self).config.world_gen.chest_max_number as int
                } else {
                    old(available)@.len() as int
                };
                &&& final(self).map.objects@.len() == n + placed
                &&& final(self).map.objects@.subrange(0, n as int) == old(self).map.objects@
                &&& forall|k: int| n <= k < final(self).map.objects@.len() ==> chest_ok(#[trigger] final(self).map.objects@[k], old(self).config.world_gen.chest_items@)
                    && old(available)@.contains(final(self).map.objects@[k].pos())
                &&& final(available)@.len() == old(available)@.len() - placed
            }),
            final(available)@.no_duplicates(),
            forall|a: int| 0 <= a < final(available)@.len() ==> old(available)@.contains(#[trigger] final(available)@[a]),
            forall|a: int, k: int|
                0 <= a < final(available)@.len() && 0 <= k < final(self).map.objects@.len() ==> (
                #[trigger] final(self).map.objects@[k]).pos() != #[trigger] final(available)@[a],
            forall|p: Position| final(self).map.wall_at(p) == old(self).map.wall_at(p),
    {
        let max = self.config.world_gen.chest_max_number;
        let total = if max < available.len() { max } else { available.len() };
        let pool = &self.config.world_gen.chest_items;
        let mut weights: Vec<u32> = Vec::new();
        let mut q: usize = 0;
        while q < pool.len()
            invariant
                0 <= q <= pool@.len(),
                weights@.len() == q,
            decreases pool@.len() - q,
        {
            weights.push(pool[q].draw_weight);
            q = q + 1;
        }
        let ghost n = self.map.objects@.len();
        let ghost av0 = available@;
        let ghost m0 = self.map;
        let mut placed: usize = 0;
        while placed < total
            invariant
                self.wf(),
                self.players == old(self).players,
                self.config == old(self).config,
                self.map.same_terrain(m0),
                self.map.projectiles == m0.projectiles,
                m0 == old(self).map,
                av0 == old(available)@,
                weights@.len() == self.config.world_gen.chest_items@.len(),
                total <= av0.len(),
                total == (if self.config.world_gen.chest_max_number < av0.len() { self.config.world_gen.chest_max_number as int } else { av0.len() as int }),
                0 <= placed <= total,
                self.map.objects@.len() == n + placed,
                self.map.objects@.subrange(0, n as int) == m0.objects@,
                forall|k: int| n <= k < self.map.objects@.len() ==> chest_ok(#[trigger] self.map.objects@[k], self.config.world_gen.chest_items@)
                    && av0.contains(self.map.objects@[k].pos()),
                available@.len() == av0.len() - placed,
                available@.no_duplicates(),
                forall|a: int| 0 <= a < available@.len() ==> av0.contains(#[trigger] available@[a]),
                forall|a: int| 0 <= a < available@.len() ==> self.map.in_bounds(#[trigger] available@[a]),
                forall|a: int, k: int|
                    0 <= a < available@.len() && 0 <= k < self.map.objects@.len() ==> (
                    #[trigger] self.map.objects@[k]).pos() != #[trigger] available@[a],
                forall|p: Position| self.map.wall_at(p) == m0.wall_at(p),
            decreases total - placed,
        {
            let i = draw_below(rng, available.len());
            let ghost s = available@;
            proof {
                lemma_swap_remove(s, i as int);
            }
            let cell = available.swap_remove(i);
            let items = self.draw_loot(rng, &weights);
            let ghost before = self.map;
            self.map.objects.push(Object::new_chest(cell, items));
            proof {
                let o = self.map.objects@;
                assert(s.contains(cell));
                assert forall|k: int| 0 <= k < o.len() implies self.map.in_bounds((#[trigger] o[k]).pos()) by {
                    if k < before.objects@.len() {
                        assert(o[k] == before.objects@[k]);
                    }
                }
                assert forall|k: int| 0 <= k < o.len() && (#[trigger] o[k]) is Chest implies forall|z: int|
                    0 <= z < o[k]->Chest_0.items@.len() ==> (#[trigger] o[k]->Chest_0.items@[z]).wf() by {
                    if k < before.objects@.len() {
                        assert(o[k] == before.objects@[k]);
                    } else {
                        assert forall|z: int| 0 <= z < o[k]->Chest_0.items@.len() implies (#[trigger] o[k]->Chest_0.items@[z]).wf() by {
                            let it = o[k]->Chest_0.items@[z];
                            assert(self.config.world_gen.chest_items@.contains(it));
                        }
                    }
                }
                assert(o.subrange(0, n as int) =~= before.objects@.subrange(0, n as int));
                assert forall|k: int| n <= k < o.len() implies chest_ok(#[trigger] o[k], self.config.world_gen.chest_items@)
                    && av0.contains(o[k].pos()) by {
                    if k < before.objects@.len() {
                        assert(o[k] == before.objects@[k]);
                    }
                }
                assert forall|a: int, k: int| 0 <= a < available@.len() && 0 <= k < o.len() implies (#[trigger] o[k]).pos() != #[trigger] available@[a] by {
                    let a2 = if a == i { s.len() - 1 } else { a };
                    assert(available@[a] == s[a2]);
                    if k < before.objects@.len() {
                        assert(o[k] == before.objects@[k]);
                    } else {
                        assert(available@[a] != s[i as int]);
                    }
                }
                assert forall|a: int| 0 <= a < available@.len() implies av0.contains(#[trigger] available@[a]) && self.map.in_bounds(available@[a]) by {
                    let a2 = if a == i { s.len() - 1 } else { a };
                    assert(available@[a] == s[a2]);
                }
                assert forall|p: Position| self.map.wall_at(p) == before.wall_at(p) by {
                    if self.map.wall_at(p) {
                        let k = choose|k: int| 0 <= k < o.len() && (#[trigger] o[k]).is_wall_at(p);
                        assert(before.objects@[k].is_wall_at(p));
                    }
                    if before.wall_at(p) {
                        let k = choose|k: int| 0 <= k < before.objects@.len() && (#[trigger] before.objects@[k]).is_wall_at(p);
                        assert(o[k].is_wall_at(p));
                    }
                }
            }
            placed = placed + 1;
        }
    }

    /// Respawns every player, in registry order, on a cell drawn from `available`,
    /// taking that cell out of it.
    pub fn spawn_players(&mut self, rng: &mut StdRng, available: &mut Vec<Position>)
        requires
            old(self).wf(),
            old(available)@.len() >= old(self).players@.len(),
            old(available)@.no_duplicates(),
            forall|a: int| 0 <= a < old(available)@.len() ==> old(self).map.in_bounds(#[trigger] old(available)@[a]),
        ensures
            final(self).wf(),
            final(self).map == old(self).map,
            final(self).config == old(self).config,
            final(self).players@.len() == old(self).players@.len(),
            forall|i: int| 0 <= i < final(self).players@.len() ==> {
                let p = #[trigger] final(self).players@[i];
                let o = old(self).players@[i];
                &&& old(available)@.contains(p.position)
                &&& p.hp == old(self).config.world_gen.player_health
                &&& p.shield == 0
                &&& p.inventory@ == loadout(old(self).config.world_gen.player_items@)
                &&& p.action is None
                &&& p.last_position is None
                &&& p.alive_time == 0
                &&& p.remaining_haste_ticks == 0
                &&& p.remaining_damage_ticks == 0
                &&& p.id == o.id
                &&& p.name == o.name
                &&& p.score == o.score
                &&& p.total_kills == o.total_kills
                &&& p.total_wins == o.total_wins
                &&& p.total_opened_chests == o.total_opened_chests
                &&& p.total_segfaults == o.total_segfaults
            },
            forall|i: int, j: int| 0 <= i < j < final(self).players@.len() ==> final(self).players@[i].position != final(self).players@[j].position,
    {
        let ghost av0 = available@;
        let mut i: usize = 0;
        while i < self.players.len()
            invariant
                self.wf(),
                self.map == old(self).map,
                self.config == old(self).config,
                self.players@.len() == old(self).players@.len(),
                av0 == old(available)@,
                0 <= i <= self.players@.len(),
                available@.len() == av0.len() - i,
                available@.len() >= self.players@.len() - i,
                available@.no_duplicates(),
                forall|a: int| 0 <= a < available@.len() ==> av0.contains(#[trigger] available@[a]),
                forall|a: int| 0 <= a < available@.len() ==> self.map.in_bounds(#[trigger] available@[a]),
                forall|j: int| i <= j < self.players@.len() ==> #[trigger] self.players@[j] == old(self).players@[j],
                forall|j: int| 0 <= j < i ==> {
                    let p = #[trigger] self.players@[j];
                    let o = old(self).players@[j];
                    &&& av0.contains(p.position)
                    &&& p.hp == old(self).config.world_gen.player_health
                    &&& p.shield == 0
                    &&& p.inventory@ == loadout(old(self).config.world_gen.player_items@)
                    &&& p.action is None
                    &&& p.last_position is None
                    &&& p.alive_time == 0
                    &&& p.remaining_haste_ticks == 0
                    &&& p.remaining_damage_ticks == 0
                    &&& p.id == o.id
                    &&& p.name == o.name
                    &&& p.score == o.score
                    &&& p.total_kills == o.total_kills
                    &&& p.total_wins == o.total_wins
                    &&& p.total_opened_chests == o.total_opened_chests
                    &&& p.total_segfaults == o.total_segfaults
                },
                forall|j: int, a: int| 0 <= j < i && 0 <= a < available@.len() ==> (#[trigger] self.players@[j]).position != #[trigger] available@[a],
                forall|j: int, k: int| 0 <= j < k < i ==> self.players@[j].position != self.players@[k].position,
            decreases self.players@.len() - i,
        {
            let d = draw_below(rng, available.len());
            let ghost s = available@;
            proof {
                lemma_swap_remove(s, d as int);
            }
            let cell = available.swap_remove(d);
            let ghost before = *self;
            self.players[i].respawn(&self.config.world_gen, cell);
            proof {
                assert(s.contains(cell));
                assert forall|q: int| 0 <= q < self.players@.len() implies (#[trigger] self.players@[q]).wf() by {
                    if q != i {
                        assert(self.players@[q] == before.players@[q]);
                    }
                }
                assert forall|a: int| 0 <= a < available@.len() implies av0.contains(#[trigger] available@[a]) && self.map.in_bounds(available@[a]) by {
                    let a2 = if a == d { s.len() - 1 } else { a };
                    assert(available@[a] == s[a2]);
                }
                assert forall|j: int, a: int| 0 <= j < i + 1 && 0 <= a < available@.len() implies (#[trigger] self.players@[j]).position != #[trigger] available@[a] by {
                    let a2 = if a == d { s.len() - 1 } else { a };
                    assert(available@[a] == s[a2]);
                    if j < i {
                        assert(self.players@[j] == before.players@[j]);
                    }
                }
                assert forall|j: int, k: int| 0 <= j < k < i + 1 implies self.players@[j].position != self.players@[k].position by {
                    assert(self.players@[j] == before.players@[j]);
                    if k < i {
                        assert(self.players@[k] == before.players@[k]);
                    } else {
                        assert(s.contains(before.players@[j].position) == false) by {
                            if s.contains(before.players@[j].position) {
                                let a = choose|a: int| 0 <= a < s.len() && s[a] == before.players@[j].position;
                                assert(before.players@[j].position != s[a]);
                            }
                        }
                    }
                }
                assert forall|j: int| 0 <= j < i + 1 implies {
                    let p = #[trigger] self.players@[j];
                    let o = old(self).players@[j];
                    &&& av0.contains(p.position)
                    &&& p.hp == old(self).config.world_gen.player_health
                    &&& p.shield == 0
                    &&& p.inventory@ == loadout(old(self).config.world_gen.player_items@)
                    &&& p.action is None
                    &&& p.last_position is None
                    &&& p.alive_time == 0
                    &&& p.remaining_haste_ticks == 0
                    &&& p.remaining_damage_ticks == 0
                    &&& p.id == o.id
                    &&& p.name == o.name
                    &&& p.score == o.score
                    &&& p.total_kills == o.total_kills
                    &&& p.total_wins == o.total_wins
                    &&& p.total_opened_chests == o.total_opened_chests
                    &&& p.total_segfaults == o.total_segfaults
                } by {
                    if j < i {
                        assert(self.players@[j] == before.players@[j]);
                    }
                }
                assert forall|j: int| i + 1 <= j < self.players@.len() implies #[trigger] self.players@[j] == old(self).players@[j] by {
                    assert(self.players@[j] == before.players@[j]);
                }
            }
            i = i + 1;
        }
    }
}

impl Game {
    /// Generates a fresh map from the terrain of a noise field and respawns every
    /// player on it. The firewall seeds, chests, loot and spawn cells are drawn from
    /// `rng`, so a generator seeded alike gives the same map. Returns false, leaving
    /// the players where they were, when fewer open cells than players remain once
    /// the chests are placed: the caller then generates again.
    pub fn generate(&mut self, rng: &mut StdRng, terrain: &Vec<Terrain>) -> (r: bool)
        requires
            old(self).wf(),
            terrain@.len() == old(self).config.world_gen.width * old(self).config.world_gen.height,
        ensures
            final(self).wf(),
            final(self).config == old(self).config,
            final(self).map.width == old(self).config.world_gen.width,
            final(self).map.height == old(self).config.world_gen.height,
            final(self).map.projectiles@.len() == 0,
            final(self).players@.len() == old(self).players@.len(),
            forall|p: Position| final(self).map.wall_at(p) == (final(self).map.in_bounds(p) && terrain_at(terrain@, final(self).map.width as int, p) == Terrain::Wall),
            forall|p: Position| final(self).map.via_at(p) == (final(self).map.in_bounds(p) && terrain_at(terrain@, final(self).map.width as int, p) == Terrain::Via),
            exists|k: int| 0 <= k < 4 && #[trigger] fire_matches(final(self).map, old(self).config.world_gen.firewall_pattern, k),
            exists|n: int| #[trigger] laid_out(final(self).map.objects@, n, old(self).config.world_gen, open_cells(final(self).map, terrain@)),
            ({
                let open = open_cells(final(self).map, terrain@).len();
                let chests = if old(self).config.world_gen.chest_max_number < open { old(self).config.world_gen.chest_max_number as int } else { open as int };
                r == (open - chests >= old(self).players@.len())
            }),
            !r ==> final(self).players == old(self).players,
            r ==> forall|i: int| 0 <= i < final(self).players@.len() ==> {
                let p = #[trigger] final(self).players@[i];
                let o = old(self).players@[i];
                &&& open_cells(final(self).map, terrain@).contains(p.position)
                &&& forall|k: int| 0 <= k < final(self).map.objects@.len() ==> (#[trigger] final(self).map.objects@[k]).pos() != p.position
                &&& p.hp == old(self).config.world_gen.player_health
                &&& p.shield == 0
                &&& p.inventory@ == loadout(old(self).config.world_gen.player_items@)
                &&& p.action is None
                &&& p.last_position is None
                &&& p.alive_time == 0
                &&& p.remaining_haste_ticks == 0
                &&& p.remaining_damage_ticks == 0
                &&& p.id == o.id
                &&& p.name == o.name
                &&& p.score == o.score
                &&& p.total_kills == o.total_kills
                &&& p.total_wins == o.total_wins
                &&& p.total_opened_chests == o.total_opened_chests
                &&& p.total_segfaults == o.total_segfaults
            },
            r ==> forall|i: int, j: int| 0 <= i < j < final(self).players@.len() ==> final(self).players@[i].position != final(self).players@[j].position,
    {
        self.map = GameMap::new(self.config.world_gen.width, self.config.world_gen.height);
        let k = self.seed_firewall(rng);
        let ghost fired = self.map;
        let mut available = self.lay_terrain(terrain);
        proof {
            available@.unique_seq_to_set();
        }
        let ghost av0 = available@;
        let ghost walls_only = self.map;
        self.place_chests(rng, &mut available);
        let ghost after_chests = self.map;
        proof {
            let m = self.map;
            let n = walls_only.objects@.len();
            assert(open_cells(m, terrain@) == open_cells(walls_only, terrain@));
            assert forall|q: int| 0 <= q < n implies (#[trigger] m.objects@[q]) is Wall && m.objects@[q]->Wall_0.hp == crate::entities::WALL_HP by {
                assert(m.objects@[q] == m.objects@.subrange(0, n as int)[q]);
                assert(walls_only.objects@[q] is Wall);
            }
            assert forall|q: int| n <= q < m.objects@.len() implies chest_ok(#[trigger] m.objects@[q], self.config.world_gen.chest_items@)
                && open_cells(m, terrain@).contains(m.objects@[q].pos()) by {
                assert(av0.contains(m.objects@[q].pos()));
                assert(av0.to_set().contains(m.objects@[q].pos()));
            }
            assert(laid_out(m.objects@, n as int, self.config.world_gen, open_cells(m, terrain@)));
            assert forall|p: Position| m.via_at(p) == walls_only.via_at(p) by {}
        }
        proof {
            assert(fire_matches(self.map, self.config.world_gen.firewall_pattern, k@)) by {
                assert forall|p: Position| #[trigger] self.map.fire_at(p) == fired.fire_at(p) by {}
            }
        }
        if available.len() < self.players.len() {
            return false;
        }
        let ghost av1 = available@;
        self.spawn_players(rng, &mut available);
        proof {
            let m = self.map;
            assert forall|i: int| 0 <= i < self.players@.len() implies open_cells(m, terrain@).contains(#[trigger] self.players@[i].position)
                && forall|q: int| 0 <= q < m.objects@.len() ==> (#[trigger] m.objects@[q]).pos() != self.players@[i].position by {
                let p = self.players@[i].position;
                assert(av1.contains(p));
                let a = choose|a: int| 0 <= a < av1.len() && av1[a] == p;
                assert(av0.contains(p));
                assert(av0.to_set().contains(p));
                assert forall|q: int| 0 <= q < m.objects@.len() implies (#[trigger] m.objects@[q]).pos() != p by {
                    assert(m.objects@[q].pos() != av1[a]);
                }
            }
        }
        true
    }
}

} // verus!
