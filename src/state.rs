//! What each observer is shown of the world: the spectator view and each agent's
//! fogged view.
use vstd::prelude::*;
use crate::entities::{Object, Projectile, holds_id};
use crate::game::{Game, index_of, lemma_index_of};
use crate::map::GameMap;
use crate::player::Player;
use crate::tick::alive_count;
use crate::types::{Event, PlayerId, Position, ScoreboardTeam, chebyshev};

verus! {

/// Radius of the square that an agent sees around its player.
pub const VIEW_RADIUS: u32 = 3;

/// What a cell of a view shows.
#[derive(Debug, Clone, Copy, PartialEq, Eq, Structural)]
pub enum PlayerViewCell {
    Invalid,
    Firewall,
    Via,
    Chest,
    Wall,
    Empty,
}

/// Counts of living and dead players.
#[derive(Debug, Clone, Copy, PartialEq, Eq, Structural)]
pub struct GameStats {
    pub alive_count: usize,
    pub dead_count: usize,
}

/// A rectangle of cells, row by row, whose top-left cell is `offset`.
#[derive(Debug)]
pub struct PlayerView {
    pub width: u32,
    pub height: u32,
    pub data: Vec<PlayerViewCell>,
    pub offset: Position,
}

/// The spectator's view of the whole world.
#[derive(Debug)]
pub struct GameState {
    pub players: Vec<Player>,
    pub stats: GameStats,
    pub ground: PlayerView,
    pub objects: Vec<Object>,
    pub projectiles: Vec<Projectile>,
}

/// An agent's view around its own player.
#[derive(Debug)]
pub struct PlayerGameState {
    pub player: Player,
    pub enemies: Vec<Player>,
    pub stats: GameStats,
    pub ground: PlayerView,
    pub objects: Vec<Object>,
    pub projectiles: Vec<Projectile>,
}

/// A message from the server to a client.
#[derive(Debug)]
pub enum ServerMessage {
    TickInfo { state: PlayerGameState },
    TickInfoDead,
    GameStart,
    GameState { scoreboard: Option<Vec<ScoreboardTeam>>, state: GameState },
    Events { events: Vec<Event> },
    Broadcast { message: String },
    NameConfirmation { name: String },
    LinkFailed,
}

/// The marker that the last chest or wall standing on `p` leaves on the spectator grid.
pub open spec fn object_marker(objects: Seq<Object>, p: Position) -> PlayerViewCell
    decreases objects.len(),
{
    if objects.len() == 0 {
        PlayerViewCell::Empty
    } else {
        let o = objects.last();
        match o {
            Object::Chest(c) if c.position == p => PlayerViewCell::Chest,
            Object::Wall(w) if w.position == p => PlayerViewCell::Wall,
            _ => object_marker(objects.drop_last(), p),
        }
    }
}

/// A cell of the spectator grid: firewall over via over the last chest or wall.
pub open spec fn spectator_cell(m: GameMap, p: Position) -> PlayerViewCell {
    if m.fire_at(p) {
        PlayerViewCell::Firewall
    } else if m.via_at(p) {
        PlayerViewCell::Via
    } else {
        object_marker(m.objects@, p)
    }
}

/// Whether an agent whose player is `viewer` is shown object `o`.
pub open spec fn agent_sees(o: Object, viewer: Player) -> bool {
    &&& chebyshev(o.pos(), viewer.position) <= VIEW_RADIUS
    &&& match o {
        Object::Chest(c) => !holds_id(c.opened_by@, viewer.id),
        Object::Trap(t) => t.owner@ == viewer.id@,
        Object::Wall(w) => w.hp > 0,
    }
}

/// Whether the agent of `viewer` is shown a wall on `p`.
pub open spec fn wall_seen(objects: Seq<Object>, viewer: Player, p: Position) -> bool {
    exists|k: int| 0 <= k < objects.len() && agent_sees(objects[k], viewer) && (#[trigger] objects[k]).is_wall_at(p)
}

/// Whether the first object on `p` shown to the agent of `viewer`, walls aside, is a chest.
pub open spec fn chest_first(objects: Seq<Object>, viewer: Player, p: Position) -> bool
    decreases objects.len(),
{
    if objects.len() == 0 {
        false
    } else if agent_sees(objects[0], viewer) && !(objects[0] is Wall) && objects[0].pos() == p {
        objects[0] is Chest
    } else {
        chest_first(objects.subrange(1, objects.len() as int), viewer, p)
    }
}

/// A cell of the view of the agent of `viewer`.
pub open spec fn agent_cell(m: GameMap, viewer: Player, p: Position) -> PlayerViewCell {
    if !m.in_bounds(p) {
        PlayerViewCell::Invalid
    } else if m.fire_at(p) {
        PlayerViewCell::Firewall
    } else if m.via_at(p) {
        PlayerViewCell::Via
    } else if wall_seen(m.objects@, viewer, p) {
        PlayerViewCell::Wall
    } else if chest_first(m.objects@, viewer, p) {
        PlayerViewCell::Chest
    } else {
        PlayerViewCell::Empty
    }
}

/// The objects shown to the agent of `viewer`, in order.
pub open spec fn seen_objects(objects: Seq<Object>, viewer: Player) -> Seq<Object> {
    objects.filter_map(|o: Object| if agent_sees(o, viewer) { Some(o) } else { None })
}

/// The other living players near `viewer`, in registry order.
pub open spec fn seen_enemies(players: Seq<Player>, viewer: Player) -> Seq<Player> {
    players.filter_map(
        |q: Player|
            if q.alive() && q.id@ != viewer.id@ && chebyshev(q.position, viewer.position) <= VIEW_RADIUS {
                Some(q)
            } else {
                None
            },
    )
}

/// The projectiles near `viewer` that are not its own, in order.
pub open spec fn seen_projectiles(ps: Seq<Projectile>, viewer: Player) -> Seq<Projectile> {
    ps.filter_map(
        |q: Projectile|
            if chebyshev(q.position, viewer.position) <= VIEW_RADIUS && q.owner@ != viewer.id@ {
                Some(q)
            } else {
                None
            },
    )
}

/// The objects other than traps, in order.
pub open spec fn public_objects(objects: Seq<Object>) -> Seq<Object> {
    objects.filter_map(|o: Object| if o is Trap { None } else { Some(o) })
}

/// The `k`-th cell, row by row, of the square of radius `VIEW_RADIUS` around `c`.
pub open spec fn window_cell(c: Position, k: int) -> Position {
    Position { x: (c.x - VIEW_RADIUS + k % 7) as i32, y: (c.y - VIEW_RADIUS + k / 7) as i32 }
}

proof fn lemma_chest_first(objects: Seq<Object>, viewer: Player, p: Position, i: int)
    requires
        0 <= i <= objects.len(),
        forall|j: int| 0 <= j < i ==> !(agent_sees(#[trigger] objects[j], viewer) && !(objects[j] is Wall) && objects[j].pos() == p),
        i < objects.len() ==> agent_sees(objects[i], viewer) && !(objects[i] is Wall) && objects[i].pos() == p,
    ensures
        chest_first(objects, viewer, p) == (i < objects.len() && objects[i] is Chest),
    decreases objects.len(),
{
    if objects.len() > 0 && i > 0 {
        let rest = objects.subrange(1, objects.len() as int);
        assert(!(agent_sees(objects[0], viewer) && !(objects[0] is Wall) && objects[0].pos() == p));
        assert forall|j: int| 0 <= j < i - 1 implies !(agent_sees(#[trigger] rest[j], viewer) && !(rest[j] is Wall) && rest[j].pos() == p) by {
            assert(rest[j] == objects[j + 1]);
        }
        lemma_chest_first(rest, viewer, p, i - 1);
    }
}

impl Game {
    /// Counts of living and dead players.
    pub fn stats(&self) -> (r: GameStats)
        ensures
            r.alive_count == alive_count(self.players@),
            r.dead_count == self.players@.len() - alive_count(self.players@),
    {
        let mut alive: usize = 0;
        let mut i: usize = 0;
        while i < self.players.len()
            invariant
                0 <= i <= self.players@.len(),
                alive == alive_count(self.players@.take(i as int)),
                alive <= i,
            decreases self.players@.len() - i,
        {
            assert(self.players@.take(i as int + 1).drop_last() =~= self.players@.take(i as int));
            if self.players[i].is_alive() {
                alive = alive + 1;
            }
            i = i + 1;
        }
        assert(self.players@.take(i as int) =~= self.players@);
        GameStats { alive_count: alive, dead_count: self.players.len() - alive }
    }

    /// The spectator grid of the whole map.
    pub fn spectator_ground(&self) -> (r: PlayerView)
        requires
            self.map.wf(),
        ensures
            r.width == self.map.width,
            r.height == self.map.height,
            r.offset == (Position { x: 0, y: 0 }),
            r.data@.len() == self.map.width * self.map.height,
            forall|p: Position| self.map.in_bounds(p) ==> #[trigger] r.data@[self.map.idx(p)] == spectator_cell(self.map, p),
    {
        let m = &self.map;
        let n = m.firewall.len();
        let mut data: Vec<PlayerViewCell> = Vec::new();
        let mut i: usize = 0;
        while i < n
            invariant
                0 <= i <= n,
                data@.len() == i,
                forall|j: int| 0 <= j < i ==> data@[j] == PlayerViewCell::Empty,
            decreases n - i,
        {
            data.push(PlayerViewCell::Empty);
            i = i + 1;
        }
        let mut k: usize = 0;
        proof {
            assert(m.objects@.take(0) =~= Seq::<Object>::empty());
            assert forall|p: Position| m.in_bounds(p) implies #[trigger] data@[m.idx(p)] == object_marker(m.objects@.take(0), p) by {
                crate::map::lemma_cell_index(m.width as int, m.height as int, p.x as int, p.y as int);
            }
        }
        while k < m.objects.len()
            invariant
                m.wf(),
                n == m.firewall@.len(),
                0 <= k <= m.objects@.len(),
                data@.len() == n,
                forall|p: Position| m.in_bounds(p) ==> #[trigger] data@[m.idx(p)] == object_marker(m.objects@.take(k as int), p),
            decreases m.objects@.len() - k,
        {
            assert(m.objects@.take(k as int + 1).drop_last() =~= m.objects@.take(k as int));
            let ghost before = data@;
            match &m.objects[k] {
                Object::Chest(c) => {
                    let ci = m.cell_index(&c.position);
                    data.set(ci, PlayerViewCell::Chest);
                },
                Object::Wall(w) => {
                    let ci = m.cell_index(&w.position);
                    data.set(ci, PlayerViewCell::Wall);
                },
                _ => {},
            }
            proof {
                let o = m.objects@[k as int];
                assert forall|p: Position| m.in_bounds(p) implies #[trigger] data@[m.idx(p)] == object_marker(m.objects@.take(k as int + 1), p) by {
                    crate::map::lemma_cell_index(m.width as int, m.height as int, p.x as int, p.y as int);
                    let q = o.pos();
                    if !(o is Trap) {
                        if m.idx(p) == m.idx(q) {
                            crate::generate::lemma_idx_injective(*m, p, q);
                        }
                    }
                }
            }
            k = k + 1;
        }
        assert(m.objects@.take(m.objects@.len() as int) =~= m.objects@);
        let mut c: usize = 0;
        while c < n
            invariant
                m.wf(),
                n == m.firewall@.len(),
                0 <= c <= n,
                data@.len() == n,
                forall|p: Position| m.in_bounds(p) ==> #[trigger] data@[m.idx(p)] == (if m.idx(p) < c {
                    spectator_cell(*m, p)
                } else {
                    object_marker(m.objects@, p)
                }),
            decreases n - c,
        {
            if m.firewall[c] {
                data.set(c, PlayerViewCell::Firewall);
            } else if m.vias[c] {
                data.set(c, PlayerViewCell::Via);
            }
            proof {
                assert forall|p: Position| m.in_bounds(p) implies #[trigger] data@[m.idx(p)] == (if m.idx(p) < c + 1 {
                    spectator_cell(*m, p)
                } else {
                    object_marker(m.objects@, p)
                }) by {
                    crate::map::lemma_cell_index(m.width as int, m.height as int, p.x as int, p.y as int);
                }
            }
            c = c + 1;
        }
        proof {
            assert forall|p: Position| m.in_bounds(p) implies m.idx(p) < c by {
                crate::map::lemma_cell_index(m.width as int, m.height as int, p.x as int, p.y as int);
            }
        }
        PlayerView { width: m.width, height: m.height, data, offset: Position::new(0, 0) }
    }
}

impl Game {
    /// Whether the agent of `viewer` is shown object `o`.
    pub fn shows(&self, o: &Object, viewer: &Player) -> (r: bool)
        ensures
            r == agent_sees(*o, *viewer),
    {
        if !o.position().is_inside(&viewer.position, VIEW_RADIUS) {
            return false;
        }
        match o {
            Object::Chest(c) => !c.opened_by(&viewer.id),
            Object::Trap(t) => t.owner == viewer.id,
            Object::Wall(w) => w.hp > 0,
        }
    }

    /// A cell of the view of the agent of `viewer`.
    pub fn agent_cell_at(&self, viewer: &Player, p: &Position) -> (r: PlayerViewCell)
        requires
            self.map.wf(),
        ensures
            r == agent_cell(self.map, *viewer, *p),
    {
        if !self.map.is_within_bounds(p) {
            return PlayerViewCell::Invalid;
        }
        if self.map.is_firewall(p) {
            return PlayerViewCell::Firewall;
        }
        if self.map.is_via(p) {
            return PlayerViewCell::Via;
        }
        let mut k: usize = 0;
        while k < self.map.objects.len()
            invariant
                0 <= k <= self.map.objects@.len(),
                self.map.in_bounds(*p),
                !self.map.fire_at(*p),
                !self.map.via_at(*p),
                forall|j: int| 0 <= j < k ==> !(agent_sees(#[trigger] self.map.objects@[j], *viewer) && self.map.objects@[j].is_wall_at(*p)),
            decreases self.map.objects@.len() - k,
        {
            if self.map.objects[k].is_wall() && self.map.objects[k].position() == p && self.shows(&self.map.objects[k], viewer) {
                assert(self.map.objects@[k as int].is_wall_at(*p));
                assert(wall_seen(self.map.objects@, *viewer, *p));
                return PlayerViewCell::Wall;
            }
            k = k + 1;
        }
        let mut k: usize = 0;
        while k < self.map.objects.len()
            invariant
                0 <= k <= self.map.objects@.len(),
                self.map.in_bounds(*p),
                !self.map.fire_at(*p),
                !self.map.via_at(*p),
                !wall_seen(self.map.objects@, *viewer, *p),
                forall|j: int| 0 <= j < k ==> !(agent_sees(#[trigger] self.map.objects@[j], *viewer) && !(self.map.objects@[j] is Wall) && self.map.objects@[j].pos() == *p),
            decreases self.map.objects@.len() - k,
        {
            if !self.map.objects[k].is_wall() && self.map.objects[k].position() == p && self.shows(&self.map.objects[k], viewer) {
                proof {
                    lemma_chest_first(self.map.objects@, *viewer, *p, k as int);
                    assert(!wall_seen(self.map.objects@, *viewer, *p));
                    assert(chest_first(self.map.objects@, *viewer, *p) == (self.map.objects@[k as int] is Chest));
                }
                return match &self.map.objects[k] {
                    Object::Chest(_) => PlayerViewCell::Chest,
                    _ => PlayerViewCell::Empty,
                };
            }
            k = k + 1;
        }
        proof {
            lemma_chest_first(self.map.objects@, *viewer, *p, k as int);
        }
        PlayerViewCell::Empty
    }

    /// The spectator's view: every player, the whole grid, every object but traps,
    /// every projectile, and the scoreboard when the game is ranked.
    pub fn get_game_state(&self) -> (r: ServerMessage)
        requires
            self.wf(),
        ensures
            r is GameState,
            ({
                let sb = r->GameState_scoreboard;
                let st = r->GameState_state;
                &&& sb is Some <==> self.config.ranked
                &&& sb is Some ==> sb->0@.len() == self.players@.len() && forall|i: int|
                    0 <= i < self.players@.len() ==> (#[trigger] sb->0@[i]).name == self.players@[i].name
                        && sb->0@[i].score == self.players@[i].score
                &&& st.players@.len() == self.players@.len()
                &&& forall|i: int| 0 <= i < self.players@.len() ==> (#[trigger] st.players@[i]).same(self.players@[i])
                &&& st.stats.alive_count == alive_count(self.players@)
                &&& st.stats.dead_count == self.players@.len() - alive_count(self.players@)
                &&& st.ground.width == self.map.width
                &&& st.ground.height == self.map.height
                &&& st.ground.offset == (Position { x: 0, y: 0 })
                &&& st.ground.data@.len() == self.map.width * self.map.height
                &&& forall|p: Position| self.map.in_bounds(p) ==> #[trigger] st.ground.data@[self.map.idx(p)] == spectator_cell(self.map, p)
                &&& st.objects@.len() == public_objects(self.map.objects@).len()
                &&& forall|i: int| 0 <= i < st.objects@.len() ==> (#[trigger] st.objects@[i]).same(public_objects(self.map.objects@)[i])
                &&& st.projectiles@ == self.map.projectiles@
            }),
    {
        let scoreboard = if self.config.ranked {
            let mut teams: Vec<ScoreboardTeam> = Vec::new();
            let mut i: usize = 0;
            while i < self.players.len()
                invariant
                    0 <= i <= self.players@.len(),
                    teams@.len() == i,
                    forall|k: int| 0 <= k < i ==> (#[trigger] teams@[k]).name == self.players@[k].name && teams@[k].score == self.players@[k].score,
                decreases self.players@.len() - i,
            {
                teams.push(ScoreboardTeam { name: self.players[i].name.clone(), score: self.players[i].score });
                i = i + 1;
            }
            Some(teams)
        } else {
            None
        };
        let mut players: Vec<Player> = Vec::new();
        let mut i: usize = 0;
        while i < self.players.len()
            invariant
                0 <= i <= self.players@.len(),
                players@.len() == i,
                forall|k: int| 0 <= k < i ==> (#[trigger] players@[k]).same(self.players@[k]),
            decreases self.players@.len() - i,
        {
            players.push(self.players[i].copy());
            i = i + 1;
        }
        let all = &self.map.objects;
        let mut objects: Vec<Object> = Vec::new();
        let mut k: usize = 0;
        while k < all.len()
            invariant
                0 <= k <= all@.len(),
                objects@.len() == public_objects(all@.take(k as int)).len(),
                forall|q: int| 0 <= q < objects@.len() ==> (#[trigger] objects@[q]).same(public_objects(all@.take(k as int))[q]),
            decreases all@.len() - k,
        {
            assert(all@.take(k as int + 1).drop_last() =~= all@.take(k as int));
            let is_trap = match &all[k] {
                Object::Trap(_) => true,
                _ => false,
            };
            if !is_trap {
                objects.push(all[k].clone());
            }
            k = k + 1;
        }
        assert(all@.take(all@.len() as int) =~= all@);
        let mut projectiles: Vec<Projectile> = Vec::new();
        let mut q: usize = 0;
        while q < self.map.projectiles.len()
            invariant
                0 <= q <= self.map.projectiles@.len(),
                projectiles@ == self.map.projectiles@.take(q as int),
            decreases self.map.projectiles@.len() - q,
        {
            projectiles.push(self.map.projectiles[q].clone());
            assert(self.map.projectiles@.take(q as int + 1) =~= self.map.projectiles@.take(q as int).push(self.map.projectiles@[q as int]));
            q = q + 1;
        }
        assert(self.map.projectiles@.take(self.map.projectiles@.len() as int) =~= self.map.projectiles@);
        let state = GameState {
            players,
            stats: self.stats(),
            ground: self.spectator_ground(),
            objects,
            projectiles,
        };
        ServerMessage::GameState { scoreboard, state }
    }
}

impl Game {
    /// The view of the agent of team `id`: nothing when that team has no player or its
    /// player is dead; otherwise its player, the nearby enemies, objects and foreign
    /// projectiles, the counts, and the 7 by 7 window of cells around it.
    pub fn get_player_game_state(&self, id: &PlayerId) -> (r: Option<PlayerGameState>)
        requires
            self.wf(),
        ensures
            ({
                let i = index_of(self.players@, *id);
                if i < 0 || !self.players@[i].alive() {
                    r is None
                } else {
                    let v = self.players@[i];
                    let st = r->0;
                    let seen = seen_objects(self.map.objects@, v);
                    let near = seen_enemies(self.players@, v);
                    &&& r is Some
                    &&& st.player.same(v)
                    &&& st.objects@.len() == seen.len()
                    &&& forall|q: int| 0 <= q < seen.len() ==> (#[trigger] st.objects@[q]).same(seen[q])
                    &&& st.enemies@.len() == near.len()
                    &&& forall|q: int| 0 <= q < near.len() ==> (#[trigger] st.enemies@[q]).same(near[q])
                    &&& st.projectiles@ == seen_projectiles(self.map.projectiles@, v)
                    &&& st.stats.alive_count == alive_count(self.players@)
                    &&& st.stats.dead_count == self.players@.len() - alive_count(self.players@)
                    &&& st.ground.width == 7
                    &&& st.ground.height == 7
                    &&& st.ground.offset == (Position { x: (v.position.x - 3) as i32, y: (v.position.y - 3) as i32 })
                    &&& st.ground.data@.len() == 49
                    &&& forall|k: int| 0 <= k < 49 ==> #[trigger] st.ground.data@[k] == agent_cell(self.map, v, window_cell(v.position, k))
                }
            }),
    {
        proof {
            lemma_index_of(self.players@, *id);
        }
        let i = match self.find_player(id) {
            None => {
                return None;
            },
            Some(i) => i,
        };
        if !self.players[i].is_alive() {
            return None;
        }
        let viewer = &self.players[i];
        let all = &self.map.objects;
        let mut objects: Vec<Object> = Vec::new();
        let mut k: usize = 0;
        while k < all.len()
            invariant
                0 <= k <= all@.len(),
                objects@.len() == seen_objects(all@.take(k as int), *viewer).len(),
                forall|q: int| 0 <= q < objects@.len() ==> (#[trigger] objects@[q]).same(seen_objects(all@.take(k as int), *viewer)[q]),
            decreases all@.len() - k,
        {
            assert(all@.take(k as int + 1).drop_last() =~= all@.take(k as int));
            if self.shows(&all[k], viewer) {
                objects.push(all[k].clone());
            }
            k = k + 1;
        }
        assert(all@.take(all@.len() as int) =~= all@);
        let mut enemies: Vec<Player> = Vec::new();
        let mut j: usize = 0;
        while j < self.players.len()
            invariant
                0 <= j <= self.players@.len(),
                enemies@.len() == seen_enemies(self.players@.take(j as int), *viewer).len(),
                forall|q: int| 0 <= q < enemies@.len() ==> (#[trigger] enemies@[q]).same(seen_enemies(self.players@.take(j as int), *viewer)[q]),
            decreases self.players@.len() - j,
        {
            assert(self.players@.take(j as int + 1).drop_last() =~= self.players@.take(j as int));
            let q = &self.players[j];
            if q.is_alive() && !(q.id == viewer.id) && q.position.is_inside(&viewer.position, VIEW_RADIUS) {
                enemies.push(q.copy());
            }
            j = j + 1;
        }
        assert(self.players@.take(self.players@.len() as int) =~= self.players@);
        let ps = &self.map.projectiles;
        let mut projectiles: Vec<Projectile> = Vec::new();
        let mut q: usize = 0;
        while q < ps.len()
            invariant
                0 <= q <= ps@.len(),
                projectiles@ == seen_projectiles(ps@.take(q as int), *viewer),
            decreases ps@.len() - q,
        {
            assert(ps@.take(q as int + 1).drop_last() =~= ps@.take(q as int));
            if ps[q].position.is_inside(&viewer.position, VIEW_RADIUS) && !(ps[q].owner == viewer.id) {
                projectiles.push(ps[q].clone());
            }
            q = q + 1;
        }
        assert(ps@.take(ps@.len() as int) =~= ps@);
        let cells = viewer.position.region(VIEW_RADIUS);
        proof {
            assert((2 * VIEW_RADIUS + 1) * (2 * VIEW_RADIUS + 1) == 49);
            assert forall|z: int| 0 <= z < 49 implies #[trigger] cells@[z] == (
                (viewer.position.x - VIEW_RADIUS + z % 7) as i32,
                (viewer.position.y - VIEW_RADIUS + z / 7) as i32,
            ) by {
                assert(cells@[z] == (
                    (viewer.position.x - VIEW_RADIUS + z % (2 * VIEW_RADIUS + 1)) as i32,
                    (viewer.position.y - VIEW_RADIUS + z / (2 * VIEW_RADIUS + 1)) as i32,
                ));
            }
        }
        let mut data: Vec<PlayerViewCell> = Vec::new();
        let mut c: usize = 0;
        while c < cells.len()
            invariant
                self.map.wf(),
                cells@.len() == 49,
                forall|z: int| 0 <= z < 49 ==> #[trigger] cells@[z] == (
                    (viewer.position.x - VIEW_RADIUS + z % 7) as i32,
                    (viewer.position.y - VIEW_RADIUS + z / 7) as i32,
                ),
                0 <= c <= 49,
                data@.len() == c,
                forall|z: int| 0 <= z < c ==> #[trigger] data@[z] == agent_cell(self.map, *viewer, window_cell(viewer.position, z)),
            decreases 49 - c,
        {
            let (x, y) = cells[c];
            let cell = Position::new(x, y);
            assert(cell == window_cell(viewer.position, c as int));
            data.push(self.agent_cell_at(viewer, &cell));
            c = c + 1;
        }
        let ground = PlayerView {
            width: 7,
            height: 7,
            data,
            offset: Position::new(viewer.position.x - 3, viewer.position.y - 3),
        };
        Some(PlayerGameState {
            player: viewer.copy(),
            enemies,
            stats: self.stats(),
            ground,
            objects,
            projectiles,
        })
    }
}

} // verus!
