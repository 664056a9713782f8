//! One tick of the world, step by step in its fixed order.
use vstd::prelude::*;
use crate::entities::{InventoryItem, Object, Projectile, TrapObject, WallObject, lemma_ray};
use crate::game::{Game, index_of, lemma_index_of};
use crate::map::GameMap;
use crate::player::{Player, PlayerTickResult, player_tick_rel, add_score, add_u32, death_bonus, merge_all, stacks_wf, sub_u32};
use crate::random::chance;
use crate::types::{CardinalDirection, Direction, Event, PlayerId, Position};

verus! {

/// A kill to be credited at the end of the tick.
pub struct KillCredit {
    pub killer: PlayerId,
    pub victim: String,
    /// The victim's inventory, which goes to the killer.
    pub loot: Vec<InventoryItem>,
    pub weapon: Option<String>,
}

/// A nuke used this tick: who used it, its damage, and the item's name.
pub struct NukeUse {
    pub owner: PlayerId,
    pub damage: u32,
    pub item_name: String,
}

/// Whether the weapon is the item of a nuke used this tick.
pub open spec fn is_nuke_weapon(weapon: Option<String>, nukes: Seq<NukeUse>) -> bool {
    weapon is Some && exists|i: int| 0 <= i < nukes.len() && (#[trigger] nukes[i]).item_name@ == weapon->0@
}

/// Whether an object is still there after the cleanup.
pub open spec fn kept_object(o: Object) -> bool {
    match o {
        Object::Wall(w) => w.hp != 0,
        Object::Trap(t) => t.active,
        Object::Chest(_) => true,
    }
}

/// The objects left after the cleanup, in order.
pub open spec fn kept_objects(objects: Seq<Object>) -> Seq<Object> {
    objects.filter_map(|o: Object| if kept_object(o) { Some(o) } else { None })
}

/// The projectiles left after the cleanup, in order.
pub open spec fn kept_projectiles(map: GameMap, ps: Seq<Projectile>) -> Seq<Projectile> {
    ps.filter_map(|p: Projectile| if p.remaining_ticks != 0 && map.in_bounds(p.position) { Some(p) } else { None })
}

/// After the cleanup no wall without hit points and no sprung trap is left, and every
/// chest stays.
pub proof fn lemma_cleanup_removes_broken(objects: Seq<Object>)
    ensures
        forall|k: int| 0 <= k < kept_objects(objects).len() ==> kept_object(#[trigger] kept_objects(objects)[k]),
        forall|k: int| 0 <= k < objects.len() && (#[trigger] objects[k]) is Chest ==> kept_objects(objects).contains(objects[k]),
    decreases objects.len(),
{
    if objects.len() > 0 {
        let rest = objects.drop_last();
        lemma_cleanup_removes_broken(rest);
        assert forall|k: int| 0 <= k < objects.len() && (#[trigger] objects[k]) is Chest implies kept_objects(objects).contains(objects[k]) by {
            if k < objects.len() - 1 {
                assert(rest[k] == objects[k]);
                assert(kept_objects(rest).contains(rest[k]));
                let j = choose|j: int| 0 <= j < kept_objects(rest).len() && kept_objects(rest)[j] == rest[k];
                assert(kept_objects(objects)[j] == kept_objects(rest)[j]);
            } else {
                assert(kept_objects(objects).last() == objects[k]);
            }
        }
    }
}

/// A living player on `pos`, other than `except` when given.
pub open spec fn is_target(p: Player, pos: Position, except: Option<&PlayerId>) -> bool {
    p.alive() && p.position == pos && (except is Some ==> p.id@ != except->0@)
}

/// A wall with hit points left on `pos`.
pub open spec fn standing_wall_at(o: Object, pos: Position) -> bool {
    o is Wall && o->Wall_0.position == pos && o->Wall_0.hp > 0
}

/// A player after the firewall's damage, if it stands on the firewall alive.
pub open spec fn burned(p: Player, m: GameMap, c: crate::config::Config, dead: u32) -> Player {
    if p.alive() && m.fire_at(p.position) {
        let hp = sub_u32(p.hp, sub_u32(c.firewall_damage, p.shield as int) as int);
        let shield = sub_u32(p.shield, c.firewall_damage as int);
        let score = if hp == 0 {
            add_score(add_score(p.score, death_bonus(c.score.death_multiplier_percent, dead)), c.score.get_killed_by_firewall as int)
        } else {
            p.score
        };
        Player { hp, shield, score, ..p }
    } else {
        p
    }
}

/// The same teams, in the same order, under the same names.
pub open spec fn same_roster(a: Seq<Player>, b: Seq<Player>) -> bool {
    &&& a.len() == b.len()
    &&& forall|i: int| 0 <= i < a.len() ==> (#[trigger] b[i]).id == a[i].id && b[i].name == a[i].name
}

/// Number of dead players, held within `u32`.
pub open spec fn dead_before(ps: Seq<Player>) -> u32 {
    if ps.len() - alive_count(ps) > u32::MAX { u32::MAX } else { (ps.len() - alive_count(ps)) as u32 }
}

/// Game `post` is `pre` after the firewall's damage, counting `dead` earlier deaths;
/// its kill events stand in `r` just before position `n`.
pub open spec fn burn_step(pre: Game, post: Game, dead: u32, r: Seq<Event>, n: int) -> bool {
    let victims = fire_victims(pre.players@, pre.map, pre.config, dead);
    &&& post.map == pre.map
    &&& post.config == pre.config
    &&& post.players@.len() == pre.players@.len()
    &&& forall|i: int| 0 <= i < pre.players@.len() ==> #[trigger] post.players@[i] == burned(pre.players@[i], pre.map, pre.config, dead)
    &&& 0 <= n - victims.len()
    &&& n <= r.len()
    &&& fire_kill_events(r.subrange(n - victims.len(), n), victims)
}

/// Names of the players that the firewall kills, in registry order.
pub open spec fn fire_victims(ps: Seq<Player>, m: GameMap, c: crate::config::Config, dead: u32) -> Seq<String> {
    ps.filter_map(
        |p: Player| if p.alive() && !burned(p, m, c, dead).alive() { Some(p.name) } else { None },
    )
}

/// One kill by the firewall, without weapon, for each victim in turn.
pub open spec fn fire_kill_events(es: Seq<Event>, victims: Seq<String>) -> bool {
    &&& es.len() == victims.len()
    &&& forall|k: int| 0 <= k < es.len() ==> {
        &&& (#[trigger] es[k]) is Kill
        &&& es[k]->Kill_killer@ == "FireWall"@
        &&& es[k]->Kill_victim == victims[k]
        &&& es[k]->Kill_weapon is None
    }
}

/// Players dead in `a` are still dead in `b`, where they were.
pub open spec fn dead_stay_dead(a: Seq<Player>, b: Seq<Player>) -> bool {
    &&& a.len() == b.len()
    &&& forall|i: int| 0 <= i < a.len() && !(#[trigger] a[i]).alive() ==> !b[i].alive() && b[i].position == a[i].position
}

/// Game `g2` is `g` after crediting kill `c`, with `nukes` used this tick; `r` is
/// the kill event reported, none when no player has the killer's id.
pub open spec fn credit_rel(g: Game, g2: Game, c: KillCredit, nukes: Seq<NukeUse>, r: Option<Event>) -> bool {
    &&& g2.map == g.map
    &&& g2.config == g.config
    &&& index_of(g.players@, c.killer) < 0 ==> r is None && g2.players == g.players
    &&& index_of(g.players@, c.killer) >= 0 ==> {
        let i = index_of(g.players@, c.killer);
        let p = g.players@[i];
        let q = g2.players@[i];
        &&& others_unchanged(g2.players@, g.players@, i)
        &&& q.score == (if is_nuke_weapon(c.weapon, nukes) {
            p.score
        } else {
            add_score(p.score, g.config.score.kill_player as int)
        })
        &&& q.total_kills == add_u32(p.total_kills, 1)
        &&& q.inventory@ == merge_all(p.inventory@, c.loot@)
        &&& q == (Player { score: q.score, total_kills: q.total_kills, inventory: q.inventory, ..p })
        &&& r == Some(Event::Kill { killer: p.name, victim: c.victim, weapon: c.weapon })
    }
}

/// `gs` are the games while the `credits` are credited in order, `evs` the events
/// each reports.
pub open spec fn settle_trace(gs: Seq<Game>, credits: Seq<KillCredit>, nukes: Seq<NukeUse>, evs: Seq<Option<Event>>) -> bool {
    &&& gs.len() == credits.len() + 1
    &&& evs.len() == credits.len()
    &&& forall|i: int| 0 <= i < credits.len() ==> #[trigger] credit_rel(gs[i], gs[i + 1], credits[i], nukes, evs[i])
}

/// The events actually reported, in order.
pub open spec fn reported(evs: Seq<Option<Event>>) -> Seq<Event> {
    evs.filter_map(|e: Option<Event>| e)
}

/// The kill credits of a tick were settled as `gs`, `evs` say, and their events stand
/// in `r` from position `n` on, followed by at most a game-end event.
pub open spec fn kills_reported(
    r: Seq<Event>,
    gs: Seq<Game>,
    credits: Seq<KillCredit>,
    nukes: Seq<NukeUse>,
    evs: Seq<Option<Event>>,
    n: int,
) -> bool {
    &&& settle_trace(gs, credits, nukes, evs)
    &&& 0 <= n
    &&& n + reported(evs).len() <= r.len() <= n + reported(evs).len() + 1
    &&& r.subrange(n, n + reported(evs).len()) == reported(evs)
}

/// Game `g2`, events `e2` and nukes `n2` are `g`, `e` and `n` after player `i` took
/// its tick, which asked `r` and left the map as `m` before its demands were met.
pub open spec fn acted(
    g: Game,
    g2: Game,
    e: Seq<Event>,
    e2: Seq<Event>,
    n: Seq<NukeUse>,
    n2: Seq<NukeUse>,
    i: int,
    r: PlayerTickResult,
    m: GameMap,
) -> bool {
    let p = g.players@[i];
    &&& player_tick_rel(p, g2.players@[i], g.map, m, g.config, r)
    &&& others_unchanged(g2.players@, g.players@, i)
    &&& g2.config == g.config
    &&& match r {
        PlayerTickResult::Projectile(ps) => g2.map == (GameMap { projectiles: g2.map.projectiles, ..m })
            && g2.map.projectiles@ == m.projectiles@ + ps@ && e2 == e && n2 == n,
        PlayerTickResult::Placed(os) => g2.map == (GameMap { objects: g2.map.objects, ..m }) && g2.map.objects@
            == m.objects@ + os@ && e2 == e && n2 == n,
        PlayerTickResult::Nuke { item_name, damage } => g2.map == m && e2 == e.push(Event::Nuke { player: p.name })
            && n2 == n.push(NukeUse { owner: p.id, damage, item_name }),
        PlayerTickResult::SegFault => {
            &&& g2.map == m
            &&& n2 == n
            &&& e2.len() == e.len() + 1
            &&& e2.drop_last() == e
            &&& e2.last() is Kill
            &&& e2.last()->Kill_killer == p.name
            &&& e2.last()->Kill_victim == p.name
            &&& e2.last()->Kill_weapon is Some
            &&& e2.last()->Kill_weapon->0@ == "SegFault"@
        },
        PlayerTickResult::Nothing => g2.map == m && e2 == e && n2 == n,
    }
}

/// `gs`, `es` and `ns` are the games, events and nukes while the players take their
/// ticks in registry order.
pub open spec fn act_trace(gs: Seq<Game>, es: Seq<Seq<Event>>, ns: Seq<Seq<NukeUse>>) -> bool {
    &&& gs.len() >= 1
    &&& gs.len() == gs[0].players@.len() + 1
    &&& es.len() == gs.len()
    &&& ns.len() == gs.len()
    &&& forall|i: int| 0 <= i < gs.len() - 1 ==> #[trigger] acted_some(gs[i], gs[i + 1], es[i], es[i + 1], ns[i], ns[i + 1], i)
}

/// Player `i` took its tick between these states, asking something of the world.
pub open spec fn acted_some(g: Game, g2: Game, e: Seq<Event>, e2: Seq<Event>, n: Seq<NukeUse>, n2: Seq<NukeUse>, i: int) -> bool {
    exists|r: PlayerTickResult, m: GameMap| #[trigger] acted(g, g2, e, e2, n, n2, i, r, m)
}

/// Game `g2` is `g` after the game-over check, whose event, if any, ends `r`: the first
/// survivor, if any, gains the victory score and a win.
pub open spec fn over_rel(g: Game, g2: Game, r: Seq<Event>) -> bool {
    let w = first_alive(g.players@);
    if r.len() > 0 && r.last() is GameEnd {
        if w < 0 {
            g2.players == g.players
        } else {
            let p = g.players@[w];
            &&& others_unchanged(g2.players@, g.players@, w)
            &&& g2.players@[w] == (Player {
                score: add_score(p.score, g.config.score.victory as int),
                total_wins: add_u32(p.total_wins, 1),
                ..p
            })
        }
    } else {
        g2.players == g.players
    }
}

/// The same pending actions.
pub open spec fn same_actions(a: Seq<Player>, b: Seq<Player>) -> bool {
    a.len() == b.len() && forall|i: int| 0 <= i < a.len() ==> (#[trigger] b[i]).action == a[i].action
}

/// No finished projectile survives the cleanup.
pub proof fn lemma_cleanup_live(m: GameMap, ps: Seq<Projectile>)
    ensures
        forall|k: int| 0 <= k < kept_projectiles(m, ps).len() ==> (#[trigger] kept_projectiles(m, ps)[k]).remaining_ticks != 0,
    decreases ps.len(),
{
    if ps.len() > 0 {
        lemma_cleanup_live(m, ps.drop_last());
    }
}

/// Game `g2` and credits `c2` are `g` and `c` after player `j` took `damage`, a kill
/// being credited to `killer` with `weapon`.
pub open spec fn strike_rel(
    g: Game,
    g2: Game,
    j: int,
    damage: u32,
    dead: u32,
    killer: PlayerId,
    weapon: String,
    c: Seq<KillCredit>,
    c2: Seq<KillCredit>,
) -> bool {
    let p = g.players@[j];
    let q = g2.players@[j];
    let hp = sub_u32(p.hp, sub_u32(damage, p.shield as int) as int);
    let sc = g.config.score;
    &&& g2.map == g.map
    &&& g2.config == g.config
    &&& others_unchanged(g2.players@, g.players@, j)
    &&& if !p.alive() {
        q == p && c2 == c
    } else if hp > 0 {
        q == (Player { hp, shield: sub_u32(p.shield, damage as int), ..p }) && c2 == c
    } else {
        &&& q.inventory@.len() == 0
        &&& q == (Player {
            hp: 0,
            shield: sub_u32(p.shield, damage as int),
            score: add_score(add_score(p.score, death_bonus(sc.death_multiplier_percent, dead)), sc.get_killed_by_player as int),
            inventory: q.inventory,
            ..p
        })
        &&& c2.len() == c.len() + 1
        &&& c2.drop_last() == c
        &&& c2.last().killer == killer
        &&& c2.last().victim == p.name
        &&& c2.last().loot@ == p.inventory@
        &&& c2.last().weapon == Some(weapon)
    }
}

/// Game `g2` is `g` after wall `k` took `damage` from a projectile of `owner`, who
/// gains the wall-break score when that brings the wall down.
pub open spec fn wall_rel(g: Game, g2: Game, k: int, damage: u32, owner: PlayerId) -> bool {
    let w = g.map.objects@[k]->Wall_0;
    let hp = if w.hp >= damage { (w.hp - damage) as u32 } else { 0u32 };
    let i = index_of(g.players@, owner);
    &&& g2.config == g.config
    &&& g2.map == (GameMap { objects: g2.map.objects, ..g.map })
    &&& g2.map.objects@ == g.map.objects@.update(k, Object::Wall(WallObject { position: w.position, hp }))
    &&& if w.hp > damage || i < 0 {
        g2.players == g.players
    } else {
        &&& others_unchanged(g2.players@, g.players@, i)
        &&& g2.players@[i] == (Player { score: add_score(g.players@[i].score, g.config.score.break_wall as int), ..g.players@[i] })
    }
}

/// Whether a living player stands on `p`.
pub open spec fn target_on(g: Game, p: Position) -> bool {
    exists|j: int| 0 <= j < g.players@.len() && is_target(#[trigger] g.players@[j], p, None)
}

/// Whether a standing wall is on `p`.
pub open spec fn wall_on(g: Game, p: Position) -> bool {
    exists|k: int| 0 <= k < g.map.objects@.len() && standing_wall_at(#[trigger] g.map.objects@[k], p)
}

/// Player `j` is the first living player on `p`.
pub open spec fn first_target(g: Game, p: Position, j: int) -> bool {
    0 <= j < g.players@.len() && is_target(g.players@[j], p, None) && forall|q: int|
        0 <= q < j ==> !is_target(#[trigger] g.players@[q], p, None)
}

/// Object `k` is the first standing wall on `p`.
pub open spec fn first_wall(g: Game, p: Position, k: int) -> bool {
    0 <= k < g.map.objects@.len() && standing_wall_at(g.map.objects@[k], p) && forall|q: int|
        0 <= q < k ==> !standing_wall_at(#[trigger] g.map.objects@[q], p)
}

/// Game `g2` and credits `c2` are `g` and `c` after projectile `k` took its tick,
/// with `dead` players dead before the tick.
pub open spec fn shot_rel(g: Game, g2: Game, c: Seq<KillCredit>, c2: Seq<KillCredit>, k: int, dead: u32) -> bool {
    let pr = g.map.projectiles@[k];
    if pr.remaining_ticks == 0 {
        g2 == g && c2 == c
    } else {
        exists|ga: Game| #[trigger] advanced(g, ga, k) && shot_outcome(ga, g2, c, c2, k, pr, dead)
    }
}

/// Game `ga` is `g` with projectile `k` moved on by its speed and one tick older.
pub open spec fn advanced(g: Game, ga: Game, k: int) -> bool {
    let pr = g.map.projectiles@[k];
    &&& ga.players == g.players
    &&& ga.config == g.config
    &&& ga.map == (GameMap { projectiles: ga.map.projectiles, ..g.map })
    &&& ga.map.projectiles@ == g.map.projectiles@.update(k, Projectile {
        position: pr.position.ray(pr.direction, pr.speed as int),
        remaining_ticks: (pr.remaining_ticks - 1) as u32,
        ..pr
    })
}

/// Whether the cell at step `i` of the path of `pr` holds a living player or a
/// standing wall in `g`.
pub open spec fn blocked(g: Game, pr: Projectile, i: int) -> bool {
    target_on(g, pr.position.ray(pr.direction, i)) || wall_on(g, pr.position.ray(pr.direction, i))
}

/// What projectile `k` (as `pr` was before moving) does in the moved world `ga`: it
/// hits what stands on the first blocked cell of its path, or nothing.
pub open spec fn shot_outcome(ga: Game, g2: Game, c: Seq<KillCredit>, c2: Seq<KillCredit>, k: int, pr: Projectile, dead: u32) -> bool {
    if forall|i: int| 0 <= i <= pr.speed ==> !#[trigger] blocked(ga, pr, i) {
        g2 == ga && c2 == c
    } else {
        exists|i: int, gb: Game| #[trigger] hit_first(ga, gb, g2, c, c2, k, pr, dead, i)
    }
}

/// Projectile `pr` hits at step `i` of its path, leaving `gb`, and is then spent, leaving `g2`.
pub open spec fn hit_first(ga: Game, gb: Game, g2: Game, c: Seq<KillCredit>, c2: Seq<KillCredit>, k: int, pr: Projectile, dead: u32, i: int) -> bool {
    let cell = pr.position.ray(pr.direction, i);
    &&& 0 <= i <= pr.speed
    &&& blocked(ga, pr, i)
    &&& forall|i2: int| 0 <= i2 < i ==> !#[trigger] blocked(ga, pr, i2)
    &&& g2.players == gb.players
    &&& g2.config == gb.config
    &&& g2.map == (GameMap { projectiles: g2.map.projectiles, ..gb.map })
    &&& g2.map.projectiles@ == gb.map.projectiles@.update(k, Projectile { remaining_ticks: 0, ..ga.map.projectiles@[k] })
    &&& target_on(ga, cell) ==> forall|j: int| #[trigger] first_target(ga, cell, j) ==> strike_rel(ga, gb, j, pr.damage, dead, pr.owner, pr.name, c, c2)
    &&& !target_on(ga, cell) ==> c2 == c && forall|w: int| #[trigger] first_wall(ga, cell, w) ==> wall_rel(ga, gb, w, pr.damage, pr.owner)
}

/// `gs` and `cs` are the games and credits while the projectiles take their ticks in
/// order.
pub open spec fn shot_trace(gs: Seq<Game>, cs: Seq<Seq<KillCredit>>, dead: u32) -> bool {
    &&& gs.len() == gs[0].map.projectiles@.len() + 1
    &&& cs.len() == gs.len()
    &&& forall|k: int| 0 <= k < gs.len() - 1 ==> #[trigger] shot_rel(gs[k], gs[k + 1], cs[k], cs[k + 1], k, dead)
}

/// An object after a nuke of `d` damage: walls lose hit points, nothing else changes.
pub open spec fn nuked(o: Object, d: u32) -> Object {
    match o {
        Object::Wall(w) => Object::Wall(WallObject { position: w.position, hp: sub_u32(w.hp, d as int) }),
        _ => o,
    }
}

/// Game `gw` is `g` with every wall damaged by `d`.
pub open spec fn walls_blasted(g: Game, gw: Game, d: u32) -> bool {
    &&& gw.players == g.players
    &&& gw.config == g.config
    &&& gw.map == (GameMap { objects: gw.map.objects, ..g.map })
    &&& gw.map.objects@.len() == g.map.objects@.len()
    &&& forall|k: int| 0 <= k < g.map.objects@.len() ==> #[trigger] gw.map.objects@[k] == nuked(g.map.objects@[k], d)
}

/// Player `j` is hit by `nuke` if it is alive and not its owner.
pub open spec fn victim_step(g: Game, g2: Game, c: Seq<KillCredit>, c2: Seq<KillCredit>, j: int, nuke: NukeUse, dead: u32) -> bool {
    if g.players@[j].alive() && g.players@[j].id@ != nuke.owner@ {
        strike_rel(g, g2, j, nuke.damage, dead, nuke.owner, nuke.item_name, c, c2)
    } else {
        g2 == g && c2 == c
    }
}

/// `ps` and `pcs` are the games and credits while `nuke` reaches each player in turn.
pub open spec fn victims_trace(ps: Seq<Game>, pcs: Seq<Seq<KillCredit>>, nuke: NukeUse, dead: u32) -> bool {
    &&& ps.len() == ps[0].players@.len() + 1
    &&& pcs.len() == ps.len()
    &&& forall|j: int| 0 <= j < ps.len() - 1 ==> #[trigger] victim_step(ps[j], ps[j + 1], pcs[j], pcs[j + 1], j, nuke, dead)
}

/// Game `g2` and credits `c2` are `g` and `c` after `nuke` went off.
pub open spec fn blast_rel(g: Game, g2: Game, c: Seq<KillCredit>, c2: Seq<KillCredit>, nuke: NukeUse, dead: u32) -> bool {
    exists|gw: Game, ps: Seq<Game>, pcs: Seq<Seq<KillCredit>>|
        #[trigger] walls_blasted(g, gw, nuke.damage) && #[trigger] victims_trace(ps, pcs, nuke, dead) && ps[0] == gw && ps.last() == g2
            && pcs[0] == c && pcs.last() == c2
}

/// `gs` and `cs` are the games and credits while the `nukes` go off in order.
pub open spec fn nukes_trace(gs: Seq<Game>, cs: Seq<Seq<KillCredit>>, nukes: Seq<NukeUse>, dead: u32) -> bool {
    &&& gs.len() == nukes.len() + 1
    &&& cs.len() == gs.len()
    &&& forall|n: int| 0 <= n < nukes.len() ==> #[trigger] blast_rel(gs[n], gs[n + 1], cs[n], cs[n + 1], nukes[n], dead)
}

/// A living player other than `owner` stands on `pos`.
pub open spec fn trap_target(p: Player, pos: Position, owner: PlayerId) -> bool {
    p.alive() && p.position == pos && p.id@ != owner@
}

/// Player `j` is the first living player other than `owner` on `pos`.
pub open spec fn first_trap_target(g: Game, pos: Position, owner: PlayerId, j: int) -> bool {
    0 <= j < g.players@.len() && trap_target(g.players@[j], pos, owner) && forall|q: int|
        0 <= q < j ==> !trap_target(#[trigger] g.players@[q], pos, owner)
}

/// Object `k` of `g`, an active trap, springs on player `j`: the trap goes inert, the
/// victim loses the trap-step score and takes the trap's damage.
pub open spec fn sprung(g: Game, g2: Game, c: Seq<KillCredit>, c2: Seq<KillCredit>, k: int, j: int, dead: u32) -> bool {
    let t = g.map.objects@[k]->Trap_0;
    let p = g.players@[j];
    exists|gm: Game| #![trigger strike_rel(gm, g2, j, t.damage, dead, t.owner, t.name, c, c2)] {
        &&& gm.config == g.config
        &&& gm.map == (GameMap { objects: gm.map.objects, ..g.map })
        &&& gm.map.objects@ == g.map.objects@.update(k, Object::Trap(TrapObject { active: false, ..t }))
        &&& others_unchanged(gm.players@, g.players@, j)
        &&& gm.players@[j] == (Player { score: add_score(p.score, g.config.score.step_onto_trap as int), ..p })
        &&& strike_rel(gm, g2, j, t.damage, dead, t.owner, t.name, c, c2)
    }
}

/// Game `g2` and credits `c2` are `g` and `c` after object `k` had its turn as a trap.
pub open spec fn trap_step(g: Game, g2: Game, c: Seq<KillCredit>, c2: Seq<KillCredit>, k: int, dead: u32) -> bool {
    let o = g.map.objects@[k];
    if o is Trap && o->Trap_0.active && exists|j: int| #[trigger] first_trap_target(g, o->Trap_0.position, o->Trap_0.owner, j) {
        forall|j: int| #[trigger] first_trap_target(g, o->Trap_0.position, o->Trap_0.owner, j) ==> sprung(g, g2, c, c2, k, j, dead)
    } else {
        g2 == g && c2 == c
    }
}

/// `gs` and `cs` are the games and credits while each object has its turn as a trap.
pub open spec fn traps_trace(gs: Seq<Game>, cs: Seq<Seq<KillCredit>>, dead: u32) -> bool {
    &&& gs.len() == gs[0].map.objects@.len() + 1
    &&& cs.len() == gs.len()
    &&& forall|k: int| 0 <= k < gs.len() - 1 ==> #[trigger] trap_step(gs[k], gs[k + 1], cs[k], cs[k + 1], k, dead)
}

/// Players other than `i` are unchanged.
pub open spec fn others_unchanged(a: Seq<Player>, b: Seq<Player>, i: int) -> bool {
    a.len() == b.len() && forall|j: int| 0 <= j < a.len() && j != i ==> #[trigger] a[j] == b[j]
}

/// Moves the elements of `v` out, last first.
fn drain_reversed<T>(v: &mut Vec<T>) -> (r: Vec<T>)
    ensures
        final(v)@.len() == 0,
        r@.len() == old(v)@.len(),
        forall|k: int| 0 <= k < r@.len() ==> #[trigger] r@[k] == old(v)@[old(v)@.len() - 1 - k],
{
    let mut r: Vec<T> = Vec::new();
    while v.len() > 0
        invariant
            v@.len() + r@.len() == old(v)@.len(),
            v@ == old(v)@.take(v@.len() as int),
            forall|k: int| 0 <= k < r@.len() ==> #[trigger] r@[k] == old(v)@[old(v)@.len() - 1 - k],
        decreases v@.len(),
    {
        let x = v.pop().unwrap();
        r.push(x);
        assert(v@ =~= old(v)@.take(v@.len() as int));
    }
    r
}

impl Game {
    /// Credits a kill: the killer (the first player with that id) gains the kill
    /// score unless the weapon was a nuke used this tick, counts one more kill and
    /// takes the victim's inventory.
    pub fn credit_kill(&mut self, credit: KillCredit, nukes: &Vec<NukeUse>) -> (r: Option<Event>)
        requires
            old(self).wf_core(),
            stacks_wf(credit.loot@),
        ensures
            final(self).wf_core(),
            final(self).map == old(self).map,
            final(self).config == old(self).config,
            dead_stay_dead(old(self).players@, final(self).players@),
            same_roster(old(self).players@, final(self).players@),
            same_actions(old(self).players@, final(self).players@),
            credit_rel(*old(self), *final(self), credit, nukes@, r),
            index_of(old(self).players@, credit.killer) < 0 ==> r is None && final(self).players == old(self).players,
            index_of(old(self).players@, credit.killer) >= 0 ==> {
                let i = index_of(old(self).players@, credit.killer);
                let p = old(self).players@[i];
                let q = final(self).players@[i];
                &&& others_unchanged(final(self).players@, old(self).players@, i)
                &&& q.score == (if is_nuke_weapon(credit.weapon, nukes@) {
                    p.score
                } else {
                    add_score(p.score, old(self).config.score.kill_player as int)
                })
                &&& q.total_kills == add_u32(p.total_kills, 1)
                &&& q.inventory@ == merge_all(p.inventory@, credit.loot@)
                &&& q == (Player {
                    score: q.score,
                    total_kills: q.total_kills,
                    inventory: q.inventory,
                    ..p
                })
                &&& r == Some(Event::Kill { killer: p.name, victim: credit.victim, weapon: credit.weapon })
            },
    {
        let i = match self.find_player(&credit.killer) {
            None => {
                return None;
            },
            Some(i) => i,
        };
        proof {
            lemma_index_of(self.players@, credit.killer);
        }
        let from_nuke = match &credit.weapon {
            None => false,
            Some(w) => {
                let mut found = false;
                let mut k: usize = 0;
                while k < nukes.len()
                    invariant
                        0 <= k <= nukes@.len(),
                        found == exists|j: int| 0 <= j < k && (#[trigger] nukes@[j]).item_name@ == w@,
                    decreases nukes@.len() - k,
                {
                    if nukes[k].item_name == *w {
                        found = true;
                    }
                    k = k + 1;
                }
                found
            },
        };
        let kill_player = self.config.score.kill_player;
        if !from_nuke {
            self.players[i].earn_score(kill_player);
        }
        self.players[i].add_kill();
        let killer_name = self.players[i].name.clone();
        let KillCredit { killer, victim, loot, weapon } = credit;
        self.players[i].add_to_inventory(loot);
        assert forall|j: int| 0 <= j < self.players@.len() implies (#[trigger] self.players@[j]).wf() by {
            if j != i {
                assert(self.players@[j] == old(self).players@[j]);
            }
        }
        Some(Event::new_kill(killer_name, victim, weapon))
    }

    /// A projectile of `owner` hits wall `k` for `damage`; when that brings the wall
    /// down, the owner (the first player with that id) gains the wall-break score.
    pub fn hit_wall(&mut self, k: usize, damage: u32, owner: &PlayerId)
        requires
            old(self).wf_core(),
            k < old(self).map.objects@.len(),
            old(self).map.objects@[k as int] is Wall,
            old(self).map.objects@[k as int]->Wall_0.hp > 0,
        ensures
            final(self).wf_core(),
            final(self).config == old(self).config,
            final(self).map.same_terrain(old(self).map),
            final(self).map.projectiles == old(self).map.projectiles,
            dead_stay_dead(old(self).players@, final(self).players@),
            same_roster(old(self).players@, final(self).players@),
            same_actions(old(self).players@, final(self).players@),
            wall_rel(*old(self), *final(self), k as int, damage, *owner),
            ({
                let w = old(self).map.objects@[k as int]->Wall_0;
                let hp = if w.hp >= damage { (w.hp - damage) as u32 } else { 0u32 };
                final(self).map.objects@ == old(self).map.objects@.update(
                    k as int,
                    Object::Wall(WallObject { position: w.position, hp }),
                )
            }),
            ({
                let w = old(self).map.objects@[k as int]->Wall_0;
                let i = index_of(old(self).players@, *owner);
                if w.hp > damage || i < 0 {
                    final(self).players == old(self).players
                } else {
                    &&& others_unchanged(final(self).players@, old(self).players@, i)
                    &&& final(self).players@[i] == (Player {
                        score: add_score(old(self).players@[i].score, old(self).config.score.break_wall as int),
                        ..old(self).players@[i]
                    })
                }
            }),
    {
        let w = match &self.map.objects[k] {
            Object::Wall(w) => *w,
            _ => {
                return;
            },
        };
        let mut nw = w;
        nw.take_damage(damage);
        self.map.objects.set(k, Object::Wall(nw));
        proof {
            let m = self.map;
            let o = old(self).map;
            assert forall|j: int| 0 <= j < m.objects@.len() implies m.in_bounds((#[trigger] m.objects@[j]).pos()) by {
                assert(m.objects@[j].pos() == o.objects@[j].pos());
            }
            assert forall|j: int| 0 <= j < m.objects@.len() && (#[trigger] m.objects@[j]) is Chest implies forall|q: int|
                0 <= q < m.objects@[j]->Chest_0.items@.len() ==> (#[trigger] m.objects@[j]->Chest_0.items@[q]).wf() by {
                assert(m.objects@[j] == o.objects@[j]);
            }
        }
        if nw.hp == 0 {
            match self.find_player(owner) {
                Some(i) => {
                    let s = self.config.score.break_wall;
                    self.players[i].earn_score(s);
                    assert forall|j: int| 0 <= j < self.players@.len() implies (#[trigger] self.players@[j]).wf() by {
                        if j != i {
                            assert(self.players@[j] == old(self).players@[j]);
                        }
                    }
                },
                None => {},
            }
        }
    }

    /// Drops finished or escaped projectiles, walls without hit points and sprung traps.
    pub fn cleanup(&mut self)
        requires
            old(self).wf_core(),
        ensures
            final(self).wf(),
            final(self).players == old(self).players,
            final(self).config == old(self).config,
            final(self).map.same_terrain(old(self).map),
            final(self).map.objects@ == kept_objects(old(self).map.objects@),
            final(self).map.projectiles@ == kept_projectiles(old(self).map, old(self).map.projectiles@),
    {
        let ghost m0 = self.map;
        let rev = drain_reversed(&mut self.map.objects);
        let ghost all = m0.objects@;
        let mut rev = rev;
        let mut kept: Vec<Object> = Vec::new();
        while rev.len() > 0
            invariant
                rev@.len() <= all.len(),
                forall|k: int| 0 <= k < rev@.len() ==> #[trigger] rev@[k] == all[all.len() - 1 - k],
                kept@ == kept_objects(all.take(all.len() - rev@.len())),
                forall|k: int| 0 <= k < kept@.len() ==> m0.in_bounds((#[trigger] kept@[k]).pos()),
                forall|k: int| 0 <= k < kept@.len() && (#[trigger] kept@[k]) is Chest ==> forall|q: int|
                    0 <= q < kept@[k]->Chest_0.items@.len() ==> (#[trigger] kept@[k]->Chest_0.items@[q]).wf(),
                m0.wf(),
                all == m0.objects@,
            decreases rev@.len(),
        {
            let ghost c = all.len() - rev@.len();
            let o = rev.pop().unwrap();
            assert(o == all[c]);
            assert(all.take(c + 1).drop_last() =~= all.take(c));
            let keep = match &o {
                Object::Wall(w) => w.hp != 0,
                Object::Trap(t) => t.active,
                Object::Chest(_) => true,
            };
            if keep {
                kept.push(o);
            }
        }
        assert(all.take(all.len() as int) =~= all);
        self.map.objects = kept;
        let prev = drain_reversed(&mut self.map.projectiles);
        let ghost ps = m0.projectiles@;
        let mut prev = prev;
        let mut live: Vec<Projectile> = Vec::new();
        while prev.len() > 0
            invariant
                prev@.len() <= ps.len(),
                forall|k: int| 0 <= k < prev@.len() ==> #[trigger] prev@[k] == ps[ps.len() - 1 - k],
                live@ == kept_projectiles(m0, ps.take(ps.len() - prev@.len())),
                forall|k: int| 0 <= k < live@.len() ==> m0.in_bounds((#[trigger] live@[k]).position) && live@[k].speed
                    <= crate::items::MAX_REACH,
                m0.wf(),
                ps == m0.projectiles@,
                self.map.width == m0.width,
                self.map.height == m0.height,
            decreases prev@.len(),
        {
            let ghost c = ps.len() - prev@.len();
            let p = prev.pop().unwrap();
            assert(p == ps[c]);
            assert(ps.take(c + 1).drop_last() =~= ps.take(c));
            if !p.should_delete() && self.map.is_within_bounds(&p.position) {
                live.push(p);
            }
        }
        assert(ps.take(ps.len() as int) =~= ps);
        self.map.projectiles = live;
    }
}

/// Copies a grid of flags.
fn copy_grid(g: &Vec<bool>) -> (r: Vec<bool>)
    ensures
        r@ == g@,
{
    let mut r: Vec<bool> = Vec::new();
    let mut i: usize = 0;
    while i < g.len()
        invariant
            0 <= i <= g@.len(),
            r@ == g@.take(i as int),
        decreases g@.len() - i,
    {
        r.push(g[i]);
        assert(g@.take(i as int + 1) =~= g@.take(i as int).push(g@[i as int]));
        i = i + 1;
    }
    assert(g@.take(g@.len() as int) =~= g@);
    r
}

/// Four draws per cell of the largest map can be numbered by a 32-bit `usize`.
proof fn lemma_draw_limit(w: int, h: int)
    requires
        0 <= w <= crate::config::MAX_SIDE,
        0 <= h <= crate::config::MAX_SIDE,
    ensures
        4 * (w * h) < 0xffff_ffff,
        4 * w * h == 4 * (w * h),
{
    let m = crate::config::MAX_SIDE as int;
    assert(m == 32767);
    assert(w * h <= m * m) by (nonlinear_arith) requires 0 <= w <= m, 0 <= h <= m;
    assert(4 * (m * m) < 0xffff_ffff) by (nonlinear_arith) requires m == 32767;
    assert(4 * w * h == 4 * (w * h)) by (nonlinear_arith);
}

/// Axis direction number `k`: up, down, left, right.
pub open spec fn card(k: int) -> CardinalDirection {
    if k == 0 {
        CardinalDirection::Up
    } else if k == 1 {
        CardinalDirection::Down
    } else if k == 2 {
        CardinalDirection::Left
    } else {
        CardinalDirection::Right
    }
}

/// Whether the firewall of `m` spreads to `p` under `draws`: draw `4 * idx(c) + k`
/// says whether burning cell `c` spreads in axis direction `k`.
pub open spec fn spread_to(m: GameMap, draws: Seq<bool>, p: Position) -> bool {
    exists|c: Position, k: int|
        0 <= k < 4 && m.fire_at(c) && #[trigger] draws[4 * m.idx(c) + k] && p == c.step(card(k).spec_to_direction())
}

/// The firewall of `m2` is that of `m` after spreading under `draws`.
pub open spec fn spread_rel(m: GameMap, m2: GameMap, draws: Seq<bool>) -> bool {
    forall|p: Position| #[trigger] m2.fire_at(p) == (m.fire_at(p) || (m.in_bounds(p) && spread_to(m, draws, p)))
}

/// Maps with the same grids spread alike.
pub proof fn lemma_spread_terrain(a: GameMap, b: GameMap, draws: Seq<bool>)
    requires
        a.same_terrain(b),
    ensures
        forall|p: Position| #[trigger] spread_to(a, draws, p) == spread_to(b, draws, p),
{
    assert forall|p: Position| #[trigger] spread_to(a, draws, p) == spread_to(b, draws, p) by {
        if spread_to(a, draws, p) {
            let (c, k) = choose|c: Position, k: int|
                0 <= k < 4 && a.fire_at(c) && #[trigger] draws[4 * a.idx(c) + k] && p == c.step(card(k).spec_to_direction());
            assert(draws[4 * b.idx(c) + k]);
        }
        if spread_to(b, draws, p) {
            let (c, k) = choose|c: Position, k: int|
                0 <= k < 4 && b.fire_at(c) && #[trigger] draws[4 * b.idx(c) + k] && p == c.step(card(k).spec_to_direction());
            assert(draws[4 * a.idx(c) + k]);
        }
    }
}

impl Game {
    /// Spreads the firewall under the given draws: draw `4 * idx(c) + k` says whether
    /// burning cell `c` spreads to its neighbour in axis direction `k` (up, down,
    /// left, right), when that neighbour is on the map. No cell stops burning.
    pub fn spread_with(&mut self, draws: &Vec<bool>)
        requires
            old(self).wf_core(),
            draws@.len() == 4 * old(self).map.width * old(self).map.height,
        ensures
            final(self).wf_core(),
            final(self).players == old(self).players,
            final(self).config == old(self).config,
            final(self).map.width == old(self).map.width,
            final(self).map.height == old(self).map.height,
            final(self).map.vias == old(self).map.vias,
            final(self).map.objects == old(self).map.objects,
            final(self).map.projectiles == old(self).map.projectiles,
            spread_rel(old(self).map, final(self).map, draws@),
    {
        let ghost m0 = self.map;
        let snap = copy_grid(&self.map.firewall);
        let w = self.map.width;
        let h = self.map.height;
        let dirs = CardinalDirection::all();
        proof {
            assert(w * h <= crate::config::MAX_SIDE * crate::config::MAX_SIDE) by (nonlinear_arith)
                requires w <= crate::config::MAX_SIDE, h <= crate::config::MAX_SIDE;
        }
        let mut y: u32 = 0;
        let mut c: usize = 0;
        proof {
            assert(0 * w == 0);
        }
        while y < h
            invariant
                self.wf_core(),
                self.players == old(self).players,
                self.config == old(self).config,
                self.map.width == w && w == m0.width,
                self.map.height == h && h == m0.height,
                self.map.vias == m0.vias,
                self.map.objects == m0.objects,
                self.map.projectiles == m0.projectiles,
                snap@ == m0.firewall@,
                m0.wf(),
                m0 == old(self).map,
                draws@.len() == 4 * w * h,
                w * h <= crate::config::MAX_SIDE * crate::config::MAX_SIDE,
                0 <= y <= h,
                c == y * w,
                dirs@ == seq![CardinalDirection::Up, CardinalDirection::Down, CardinalDirection::Left, CardinalDirection::Right],
                forall|p: Position| m0.fire_at(p) ==> self.map.fire_at(p),
                forall|p: Position| self.map.fire_at(p) ==> m0.fire_at(p) || (m0.in_bounds(p) && spread_to(m0, draws@, p)),
                forall|q: Position, k: int|
                    m0.in_bounds(q) && m0.idx(q) < c && 0 <= k < 4 && m0.fire_at(q) && #[trigger] draws@[4 * m0.idx(q) + k]
                        && m0.in_bounds(q.step(card(k).spec_to_direction())) ==> self.map.fire_at(q.step(card(k).spec_to_direction())),
            decreases h - y,
        {
            proof {
                assert(y * w + w <= w * h) by (nonlinear_arith) requires y + 1 <= h;
            }
            let mut x: u32 = 0;
            while x < w
                invariant
                    self.wf_core(),
                    self.players == old(self).players,
                    self.config == old(self).config,
                    self.map.width == w && w == m0.width,
                    self.map.height == h && h == m0.height,
                    self.map.vias == m0.vias,
                    self.map.objects == m0.objects,
                    self.map.projectiles == m0.projectiles,
                    snap@ == m0.firewall@,
                    m0.wf(),
                    m0 == old(self).map,
                    draws@.len() == 4 * w * h,
                    y * w + w <= w * h,
                    w * h <= crate::config::MAX_SIDE * crate::config::MAX_SIDE,
                    0 <= y < h,
                    0 <= x <= w,
                    c == y * w + x,
                    dirs@ == seq![CardinalDirection::Up, CardinalDirection::Down, CardinalDirection::Left, CardinalDirection::Right],
                    forall|p: Position| m0.fire_at(p) ==> self.map.fire_at(p),
                    forall|p: Position| self.map.fire_at(p) ==> m0.fire_at(p) || (m0.in_bounds(p) && spread_to(m0, draws@, p)),
                    forall|q: Position, k: int|
                        m0.in_bounds(q) && m0.idx(q) < c && 0 <= k < 4 && m0.fire_at(q) && #[trigger] draws@[4 * m0.idx(q) + k]
                            && m0.in_bounds(q.step(card(k).spec_to_direction())) ==> self.map.fire_at(q.step(card(k).spec_to_direction())),
                decreases w - x,
            {
                let cell = Position::new(x as i32, y as i32);
                let ci = self.map.cell_index(&cell);
                assert(ci == c);
                let burning = snap[ci];
                assert(c < w * h);
                proof {
                    lemma_draw_limit(w as int, h as int);
                }
                let mut k: usize = 0;
                while k < 4
                    invariant
                        self.wf_core(),
                        x < w,
                        y < h,
                        cell == (Position { x: x as i32, y: y as i32 }),
                        m0.in_bounds(cell),
                        m0.idx(cell) == c,
                        burning == m0.fire_at(cell),
                        self.players == old(self).players,
                        self.config == old(self).config,
                        self.map.width == w && w == m0.width,
                        self.map.height == h && h == m0.height,
                        self.map.vias == m0.vias,
                        self.map.objects == m0.objects,
                        self.map.projectiles == m0.projectiles,
                        m0.wf(),
                        m0 == old(self).map,
                        draws@.len() == 4 * w * h,
                        y * w + w <= w * h,
                        w * h <= crate::config::MAX_SIDE * crate::config::MAX_SIDE,
                        c == y * w + x,
                        x < w,
                        c < w * h,
                        4 * w * h == 4 * (w * h),
                        4 * (w * h) < 0xffff_ffff,
                        ci == c,
                        0 <= k <= 4,
                        dirs@ == seq![CardinalDirection::Up, CardinalDirection::Down, CardinalDirection::Left, CardinalDirection::Right],
                        forall|p: Position| m0.fire_at(p) ==> self.map.fire_at(p),
                        forall|p: Position| self.map.fire_at(p) ==> m0.fire_at(p) || (m0.in_bounds(p) && spread_to(m0, draws@, p)),
                        forall|q: Position, j: int|
                            m0.in_bounds(q) && (m0.idx(q) < c || (q == cell && j < k)) && 0 <= j < 4 && m0.fire_at(q)
                                && #[trigger] draws@[4 * m0.idx(q) + j] && m0.in_bounds(q.step(card(j).spec_to_direction()))
                                ==> self.map.fire_at(q.step(card(j).spec_to_direction())),
                    decreases 4 - k,
                {
                    assert(dirs@[k as int] == card(k as int));
                    let d = dirs[k].to_direction();
                    let next = cell.with_offset(d);
                    if burning && draws[4 * ci + k] && self.map.is_within_bounds(&next) {
                        let ni = self.map.cell_index(&next);
                        let ghost before = self.map;
                        self.map.firewall.set(ni, true);
                        proof {
                            assert(spread_to(m0, draws@, next)) by {
                                assert(draws@[4 * m0.idx(cell) + k as int]);
                            }
                            assert forall|p: Position| self.map.fire_at(p) implies m0.fire_at(p) || (m0.in_bounds(p) && spread_to(m0, draws@, p)) by {
                                if p != next && self.map.in_bounds(p) {
                                    crate::map::lemma_cell_index(w as int, h as int, p.x as int, p.y as int);
                                    crate::map::lemma_cell_index(w as int, h as int, next.x as int, next.y as int);
                                    if self.map.idx(p) == self.map.idx(next) {
                                        crate::generate::lemma_idx_injective(self.map, p, next);
                                    }
                                    assert(before.fire_at(p));
                                }
                            }
                            assert forall|p: Position| before.fire_at(p) implies self.map.fire_at(p) by {
                                crate::map::lemma_cell_index(w as int, h as int, p.x as int, p.y as int);
                            }
                        }
                    }
                    k = k + 1;
                }
                proof {
                    assert forall|q: Position, j: int|
                        m0.in_bounds(q) && m0.idx(q) < c + 1 && 0 <= j < 4 && m0.fire_at(q) && #[trigger] draws@[4 * m0.idx(q) + j]
                            && m0.in_bounds(q.step(card(j).spec_to_direction())) implies self.map.fire_at(q.step(card(j).spec_to_direction())) by {
                        if m0.idx(q) == c {
                            crate::generate::lemma_idx_injective(m0, q, cell);
                        }
                    }
                }
                x = x + 1;
                c = c + 1;
            }
            proof {
                assert((y + 1) * w == y * w + w) by (nonlinear_arith);
            }
            y = y + 1;
        }
        proof {
            assert(c == w * h) by (nonlinear_arith) requires c == y * w, y == h;
            assert forall|p: Position| #[trigger] self.map.fire_at(p) == (m0.fire_at(p) || (m0.in_bounds(p) && spread_to(m0, draws@, p))) by {
                if m0.in_bounds(p) && spread_to(m0, draws@, p) {
                    let (q, k) = choose|q: Position, k: int|
                        0 <= k < 4 && m0.fire_at(q) && #[trigger] draws@[4 * m0.idx(q) + k] && p == q.step(card(k).spec_to_direction());
                    crate::map::lemma_cell_index(w as int, h as int, q.x as int, q.y as int);
                }
            }
        }
    }

    /// Every firewall cell spreads to each in-bounds axis neighbour with probability
    /// `1 / firewall_speed`, one draw per cell and direction; no cell ever stops
    /// burning. With a speed of one the firewall spreads to every neighbour.
    pub fn spread_firewall(&mut self) -> (draws: Ghost<Seq<bool>>)
        requires
            old(self).wf_core(),
        ensures
            final(self).wf_core(),
            final(self).players == old(self).players,
            final(self).config == old(self).config,
            final(self).map.width == old(self).map.width,
            final(self).map.height == old(self).map.height,
            final(self).map.vias == old(self).map.vias,
            final(self).map.objects == old(self).map.objects,
            final(self).map.projectiles == old(self).map.projectiles,
            draws@.len() == 4 * old(self).map.width * old(self).map.height,
            old(self).config.world_gen.firewall_speed == 1 ==> forall|i: int| 0 <= i < draws@.len() ==> #[trigger] draws@[i],
            spread_rel(old(self).map, final(self).map, draws@),
    {
        let speed = self.config.world_gen.firewall_speed;
        proof {
            assert(self.map.width * self.map.height <= crate::config::MAX_SIDE * crate::config::MAX_SIDE) by (nonlinear_arith)
                requires self.map.width <= crate::config::MAX_SIDE, self.map.height <= crate::config::MAX_SIDE;
            lemma_draw_limit(self.map.width as int, self.map.height as int);
            assert(self.map.firewall@.len() == self.map.width * self.map.height);
        }
        let n: usize = 4 * self.map.firewall.len();
        let mut draws: Vec<bool> = Vec::new();
        let mut i: usize = 0;
        while i < n
            invariant
                0 <= i <= n,
                draws@.len() == i,
                speed >= 1,
                speed == self.config.world_gen.firewall_speed,
                speed == 1 ==> forall|j: int| 0 <= j < i ==> #[trigger] draws@[j],
            decreases n - i,
        {
            draws.push(chance(1, speed));
            i = i + 1;
        }
        self.spread_with(&draws);
        Ghost(draws@)
    }
}

/// Every credit carries well-formed loot.
pub open spec fn credits_wf(c: Seq<KillCredit>) -> bool {
    forall|i: int| 0 <= i < c.len() ==> stacks_wf((#[trigger] c[i]).loot@)
}

/// Number of living players.
pub open spec fn alive_count(players: Seq<Player>) -> nat
    decreases players.len(),
{
    if players.len() == 0 {
        0
    } else {
        alive_count(players.drop_last()) + if players.last().alive() { 1nat } else { 0nat }
    }
}

/// Index of the first living player, or -1.
pub open spec fn first_alive(players: Seq<Player>) -> int
    decreases players.len(),
{
    if players.len() == 0 {
        -1
    } else {
        let r = first_alive(players.drop_last());
        if r >= 0 {
            r
        } else if players.last().alive() {
            players.len() - 1
        } else {
            -1
        }
    }
}

proof fn lemma_first_alive(players: Seq<Player>)
    ensures
        -1 <= first_alive(players) < players.len(),
        first_alive(players) >= 0 ==> players[first_alive(players)].alive(),
        forall|j: int| 0 <= j < players.len() && (j < first_alive(players) || first_alive(players) < 0) ==> !(
        #[trigger] players[j]).alive(),
        alive_count(players) == 0 <==> first_alive(players) < 0,
        alive_count(players) <= players.len(),
    decreases players.len(),
{
    if players.len() > 0 {
        lemma_first_alive(players.drop_last());
        assert forall|j: int| 0 <= j < players.len() - 1 implies #[trigger] players[j] == players.drop_last()[j] by {}
    }
}

impl Game {
    /// Same configuration, dimensions and terrain grids.
    pub open spec fn steady(self, o: Game) -> bool {
        self.config == o.config && self.map.same_terrain(o.map)
    }

    /// Number of dead players.
    pub fn dead_count(&self) -> (r: u32)
        ensures
            r == dead_before(self.players@),
    {
        let mut alive: usize = 0;
        let mut i: usize = 0;
        while i < self.players.len()
            invariant
                0 <= i <= self.players@.len(),
                alive == alive_count(self.players@.take(i as int)),
                alive <= i,
            decreases self.players@.len() - i,
        {
            assert(self.players@.take(i as int + 1).drop_last() =~= self.players@.take(i as int));
            if self.players[i].is_alive() {
                alive = alive + 1;
            }
            i = i + 1;
        }
        assert(self.players@.take(i as int) =~= self.players@);
        let dead = self.players.len() - alive;
        if dead > u32::MAX as usize {
            u32::MAX
        } else {
            dead as u32
        }
    }

    /// Each living player, in registry order, carries out its pending action.
    fn act_players(&mut self, events: &mut Vec<Event>, nukes: &mut Vec<NukeUse>)
        requires
            old(self).wf(),
            no_game_end(old(events)@),
        ensures
            no_game_end(final(events)@),
            final(self).wf(),
            final(self).steady(*old(self)),
            dead_stay_dead(old(self).players@, final(self).players@),
            same_roster(old(self).players@, final(self).players@),
            final(self).players@.len() == old(self).players@.len(),
            forall|i: int| 0 <= i < old(self).players@.len() && (#[trigger] old(self).players@[i]).alive() ==> final(self).players@[i].action is None,
            exists|gs: Seq<Game>, es: Seq<Seq<Event>>, ns: Seq<Seq<NukeUse>>|
                #[trigger] act_trace(gs, es, ns) && gs[0] == *old(self) && gs.last() == *final(self) && es[0] == old(events)@
                    && es.last() == final(events)@ && ns[0] == old(nukes)@ && ns.last() == final(nukes)@,
    {
        let ghost mut gs: Seq<Game> = seq![*self];
        let ghost mut es: Seq<Seq<Event>> = seq![events@];
        let ghost mut ns: Seq<Seq<NukeUse>> = seq![nukes@];
        let mut i: usize = 0;
        while i < self.players.len()
            invariant
                self.wf(),
                self.steady(*old(self)),
                dead_stay_dead(old(self).players@, self.players@),
                same_roster(old(self).players@, self.players@),
                self.players@.len() == old(self).players@.len(),
                no_game_end(events@),
                0 <= i <= self.players@.len(),
                forall|j: int| 0 <= j < i && (#[trigger] old(self).players@[j]).alive() ==> self.players@[j].action is None,
                forall|j: int| i <= j < self.players@.len() ==> #[trigger] self.players@[j] == old(self).players@[j],
                gs.len() == i + 1,
                es.len() == i + 1,
                ns.len() == i + 1,
                gs[0] == *old(self),
                gs.last() == *self,
                es[0] == old(events)@,
                es.last() == events@,
                ns[0] == old(nukes)@,
                ns.last() == nukes@,
                forall|j: int| 0 <= j < i ==> #[trigger] acted_some(gs[j], gs[j + 1], es[j], es[j + 1], ns[j], ns[j + 1], j),
            decreases self.players@.len() - i,
        {
            let ghost g_before = *self;
            let ghost e_before = events@;
            let ghost n_before = nukes@;
            let ghost mut r_spec = PlayerTickResult::Nothing;
            let ghost mut m_spec = self.map;
            if self.players[i].is_alive() {
                let ghost before = *self;
                let result = self.players[i].tick(&mut self.map, &self.config);
                proof {
                    r_spec = result;
                    m_spec = self.map;
                }
                proof {
                    assert forall|j: int| 0 <= j < self.players@.len() implies (#[trigger] self.players@[j]).wf() by {
                        if j != i {
                            assert(self.players@[j] == before.players@[j]);
                        }
                    }
                }
                match result {
                    PlayerTickResult::Projectile(ps) => {
                        let mut ps = ps;
                        let ghost m = self.map;
                        self.map.projectiles.append(&mut ps);
                        proof {
                            assert forall|k: int| 0 <= k < self.map.projectiles@.len() implies self.map.in_bounds(
                                (#[trigger] self.map.projectiles@[k]).position,
                            ) && crate::items::roomy(self.map.projectiles@[k].position) && self.map.projectiles@[k].speed <= crate::items::MAX_REACH by {
                                if k < m.projectiles@.len() {
                                    assert(self.map.projectiles@[k] == m.projectiles@[k]);
                                }
                            }
                        }
                    },
                    PlayerTickResult::Placed(os) => {
                        let mut os = os;
                        let ghost m = self.map;
                        self.map.objects.append(&mut os);
                        proof {
                            assert forall|k: int| 0 <= k < self.map.objects@.len() implies self.map.in_bounds(
                                (#[trigger] self.map.objects@[k]).pos(),
                            ) by {
                                if k < m.objects@.len() {
                                    assert(self.map.objects@[k] == m.objects@[k]);
                                }
                            }
                            assert forall|k: int| 0 <= k < self.map.objects@.len() && (#[trigger] self.map.objects@[k]) is Chest implies forall|q: int|
                                0 <= q < self.map.objects@[k]->Chest_0.items@.len() ==> (#[trigger] self.map.objects@[k]->Chest_0.items@[q]).wf() by {
                                assert(k < m.objects@.len());
                                assert(self.map.objects@[k] == m.objects@[k]);
                            }
                            assert forall|p: Position| self.map.wall_at(p) <== m.wall_at(p) by {
                                if m.wall_at(p) {
                                    let q = choose|q: int| 0 <= q < m.objects@.len() && (#[trigger] m.objects@[q]).is_wall_at(p);
                                    assert(self.map.objects@[q] == m.objects@[q]);
                                }
                            }
                        }
                    },
                    PlayerTickResult::Nuke { item_name, damage } => {
                        events.push(Event::new_nuke(self.players[i].name.clone()));
                        nukes.push(NukeUse { owner: self.players[i].id.clone(), damage, item_name });
                    },
                    PlayerTickResult::SegFault => {
                        let name = self.players[i].name.clone();
                        events.push(Event::new_kill(name.clone(), name, Some("SegFault".to_owned())));
                    },
                    PlayerTickResult::Nothing => {},
                }
            }
            proof {
                reveal_strlit("SegFault");
                assert(player_tick_rel(g_before.players@[i as int], self.players@[i as int], g_before.map, m_spec, g_before.config, r_spec));
                assert(others_unchanged(self.players@, g_before.players@, i as int));
                if r_spec is Projectile {
                    assert(self.map == (GameMap { projectiles: self.map.projectiles, ..m_spec }));
                    assert(self.map.projectiles@ == m_spec.projectiles@ + r_spec->Projectile_0@);
                    assert(events@ == e_before);
                } else if r_spec is Placed {
                    assert(self.map == (GameMap { objects: self.map.objects, ..m_spec }));
                    assert(self.map.objects@ == m_spec.objects@ + r_spec->Placed_0@);
                } else if r_spec is Nuke {
                    assert(self.map == m_spec);
                    assert(events@ == e_before.push(Event::Nuke { player: g_before.players@[i as int].name }));
                } else if r_spec is SegFault {
                    assert(self.map == m_spec);
                    assert(events@.drop_last() == e_before);
                } else {
                    assert(self.map == m_spec);
                    assert(events@ == e_before);
                    assert(nukes@ == n_before);
                }
                assert(acted(g_before, *self, e_before, events@, n_before, nukes@, i as int, r_spec, m_spec));
                let gs2 = gs.push(*self);
                let es2 = es.push(events@);
                let ns2 = ns.push(nukes@);
                assert forall|j: int| 0 <= j < i + 1 implies #[trigger] acted_some(gs2[j], gs2[j + 1], es2[j], es2[j + 1], ns2[j], ns2[j + 1], j) by {
                    if j < i {
                        assert(gs2[j] == gs[j] && gs2[j + 1] == gs[j + 1] && es2[j] == es[j] && es2[j + 1] == es[j + 1]
                            && ns2[j] == ns[j] && ns2[j + 1] == ns[j + 1]);
                    } else {
                        assert(acted(gs2[j], gs2[j + 1], es2[j], es2[j + 1], ns2[j], ns2[j + 1], j, r_spec, m_spec));
                    }
                }
                gs = gs2;
                es = es2;
                ns = ns2;
            }
            i = i + 1;
        }
        proof {
            assert(act_trace(gs, es, ns));
        }
    }
}


impl Game {
    /// Player `j` takes `damage`; if that kills it, it loses the killed-by-player
    /// score and a kill credit for `killer` with its inventory is queued.
    pub fn strike(&mut self, j: usize, damage: u32, dead: u32, killer: &PlayerId, weapon: &String, credits: &mut Vec<KillCredit>)
        requires
            old(self).wf_core(),
            j < old(self).players@.len(),
            credits_wf(old(credits)@),
        ensures
            final(self).wf_core(),
            final(self).steady(*old(self)),
            dead_stay_dead(old(self).players@, final(self).players@),
            same_roster(old(self).players@, final(self).players@),
            same_actions(old(self).players@, final(self).players@),
            final(self).map == old(self).map,
            final(self).players@.len() == old(self).players@.len(),
            others_unchanged(final(self).players@, old(self).players@, j as int),
            credits_wf(final(credits)@),
            final(self).players@[j as int].position == old(self).players@[j as int].position,
            final(self).players@[j as int].id == old(self).players@[j as int].id,
            strike_rel(*old(self), *final(self), j as int, damage, dead, *killer, *weapon, old(credits)@, final(credits)@),
            ({
                let p = old(self).players@[j as int];
                let q = final(self).players@[j as int];
                let hp = sub_u32(p.hp, sub_u32(damage, p.shield as int) as int);
                let sc = old(self).config.score;
                if !p.alive() {
                    q == p && final(credits)@ == old(credits)@
                } else if hp > 0 {
                    &&& q == (Player { hp, shield: sub_u32(p.shield, damage as int), ..p })
                    &&& final(credits)@ == old(credits)@
                } else {
                    &&& q.hp == 0
                    &&& q.shield == sub_u32(p.shield, damage as int)
                    &&& q.score == add_score(add_score(p.score, death_bonus(sc.death_multiplier_percent, dead)), sc.get_killed_by_player as int)
                    &&& q.inventory@.len() == 0
                    &&& q.same_but_inventory(Player { hp: 0, shield: q.shield, score: q.score, ..p })
                    &&& final(credits)@.len() == old(credits)@.len() + 1
                    &&& final(credits)@.drop_last() == old(credits)@
                    &&& final(credits)@.last().killer == *killer
                    &&& final(credits)@.last().victim == p.name
                    &&& final(credits)@.last().loot@ == p.inventory@
                    &&& final(credits)@.last().weapon == Some(*weapon)
                }
            }),
    {
        let ghost before = *self;
        let dm = self.config.score.death_multiplier_percent;
        let was_alive = self.players[j].is_alive();
        self.players[j].take_damage(damage, dead, dm);
        if was_alive && !self.players[j].is_alive() {
            let s = self.config.score.get_killed_by_player;
            self.players[j].earn_score(s);
            let loot = self.players[j].steal_inventory();
            let victim = self.players[j].name.clone();
            credits.push(KillCredit { killer: killer.clone(), victim, loot, weapon: Some(weapon.clone()) });
        }
        proof {
            let p = before.players@[j as int];
            let q = self.players@[j as int];
            if was_alive && !q.alive() {
                assert(q == (Player {
                    hp: 0,
                    shield: q.shield,
                    score: q.score,
                    inventory: q.inventory,
                    ..p
                }));
                assert(credits@.drop_last() =~= old(credits)@);
            }
            assert(self.map == before.map);
            assert(self.config == before.config);
            assert(others_unchanged(self.players@, before.players@, j as int));
        }
        proof {
            assert forall|q: int| 0 <= q < self.players@.len() implies (#[trigger] self.players@[q]).wf() by {
                if q != j {
                    assert(self.players@[q] == before.players@[q]);
                }
            }
        }
    }

    /// Index of the first living player on `pos`, other than `except` when given.
    pub fn find_target(&self, pos: &Position, except: Option<&PlayerId>) -> (r: Option<usize>)
        ensures
            match r {
                Some(j) => j < self.players@.len() && is_target(self.players@[j as int], *pos, except)
                    && forall|q: int| 0 <= q < j ==> !is_target(#[trigger] self.players@[q], *pos, except),
                None => forall|q: int| 0 <= q < self.players@.len() ==> !is_target(#[trigger] self.players@[q], *pos, except),
            },
    {
        let mut j: usize = 0;
        while j < self.players.len()
            invariant
                0 <= j <= self.players@.len(),
                forall|q: int| 0 <= q < j ==> !is_target(#[trigger] self.players@[q], *pos, except),
            decreases self.players@.len() - j,
        {
            let p = &self.players[j];
            if p.is_alive() && p.position == *pos {
                let other = match except {
                    Some(id) => !(p.id == *id),
                    None => true,
                };
                if other {
                    return Some(j);
                }
            }
            j = j + 1;
        }
        None
    }

    /// Index of the first standing wall on `pos`.
    pub fn find_standing_wall(&self, pos: &Position) -> (r: Option<usize>)
        ensures
            match r {
                Some(k) => k < self.map.objects@.len() && standing_wall_at(self.map.objects@[k as int], *pos)
                    && forall|q: int| 0 <= q < k ==> !standing_wall_at(#[trigger] self.map.objects@[q], *pos),
                None => forall|q: int| 0 <= q < self.map.objects@.len() ==> !standing_wall_at(#[trigger] self.map.objects@[q], *pos),
            },
    {
        let mut k: usize = 0;
        while k < self.map.objects.len()
            invariant
                0 <= k <= self.map.objects@.len(),
                forall|q: int| 0 <= q < k ==> !standing_wall_at(#[trigger] self.map.objects@[q], *pos),
            decreases self.map.objects@.len() - k,
        {
            match &self.map.objects[k] {
                Object::Wall(w) => {
                    if w.position == *pos && w.hp > 0 {
                        return Some(k);
                    }
                },
                _ => {},
            }
            k = k + 1;
        }
        None
    }

    /// Each active trap springs on the first living player, other than its owner,
    /// standing on it.
    fn resolve_traps(&mut self, dead: u32, credits: &mut Vec<KillCredit>)
        requires
            old(self).wf(),
            credits_wf(old(credits)@),
        ensures
            final(self).wf(),
            final(self).steady(*old(self)),
            dead_stay_dead(old(self).players@, final(self).players@),
            same_roster(old(self).players@, final(self).players@),
            same_actions(old(self).players@, final(self).players@),
            final(self).players@.len() == old(self).players@.len(),
            credits_wf(final(credits)@),
            exists|gs: Seq<Game>, cs: Seq<Seq<KillCredit>>|
                #[trigger] traps_trace(gs, cs, dead) && gs[0] == *old(self) && gs.last() == *final(self)
                    && cs[0] == old(credits)@ && cs.last() == final(credits)@,
    {
        let ghost mut gs: Seq<Game> = seq![*self];
        let ghost mut cs: Seq<Seq<KillCredit>> = seq![credits@];
        let mut k: usize = 0;
        while k < self.map.objects.len()
            invariant
                gs.len() == k + 1,
                cs.len() == k + 1,
                gs[0] == *old(self),
                gs.last() == *self,
                cs[0] == old(credits)@,
                cs.last() == credits@,
                self.map.objects@.len() == old(self).map.objects@.len(),
                forall|q: int| 0 <= q < k ==> #[trigger] trap_step(gs[q], gs[q + 1], cs[q], cs[q + 1], q, dead),
                self.wf(),
                self.steady(*old(self)),
                dead_stay_dead(old(self).players@, self.players@),
                same_roster(old(self).players@, self.players@),
                same_actions(old(self).players@, self.players@),
                self.players@.len() == old(self).players@.len(),
                credits_wf(credits@),
                0 <= k <= self.map.objects@.len(),
            decreases self.map.objects@.len() - k,
        {
            let ghost g_k = *self;
            let ghost c_k = credits@;
            let trap = match &self.map.objects[k] {
                Object::Trap(t) => {
                    if t.active {
                        Some(t.clone())
                    } else {
                        None
                    }
                },
                _ => None,
            };
            if let Some(t) = trap {
                let found = self.find_target(&t.position, Some(&t.owner));
                proof {
                    let tt = g_k.map.objects@[k as int]->Trap_0;
                    assert(t == tt);
                    match found {
                        Some(j) => {
                            assert(first_trap_target(g_k, tt.position, tt.owner, j as int));
                        },
                        None => {
                            assert forall|j: int| !#[trigger] first_trap_target(g_k, tt.position, tt.owner, j) by {
                                if 0 <= j < g_k.players@.len() {
                                    assert(!is_target(g_k.players@[j], tt.position, Some(&t.owner)));
                                }
                            }
                        },
                    }
                }
                if let Some(j) = found {
                    let ghost m = self.map;
                    self.map.objects.set(k, Object::Trap(TrapObject {
                        owner: t.owner.clone(),
                        name: t.name.clone(),
                        position: t.position,
                        damage: t.damage,
                        active: false,
                    }));
                    proof {
                        assert forall|q: int| 0 <= q < self.map.objects@.len() implies self.map.in_bounds((#[trigger] self.map.objects@[q]).pos()) by {
                            assert(self.map.objects@[q].pos() == m.objects@[q].pos());
                        }
                        assert forall|q: int| 0 <= q < self.map.objects@.len() && (#[trigger] self.map.objects@[q]) is Chest implies forall|z: int|
                            0 <= z < self.map.objects@[q]->Chest_0.items@.len() ==> (#[trigger] self.map.objects@[q]->Chest_0.items@[z]).wf() by {
                            assert(self.map.objects@[q] == m.objects@[q]);
                        }
                    }
                    let s = self.config.score.step_onto_trap;
                    let ghost before = *self;
                    self.players[j].earn_score(s);
                    proof {
                        assert forall|q: int| 0 <= q < self.players@.len() implies (#[trigger] self.players@[q]).wf() by {
                            if q != j {
                                assert(self.players@[q] == before.players@[q]);
                            }
                        }
                    }
                    let ghost gm = *self;
                    self.strike(j, t.damage, dead, &t.owner, &t.name, credits);
                    proof {
                        let tt = g_k.map.objects@[k as int]->Trap_0;
                        assert(gm.map.objects@ =~= g_k.map.objects@.update(k as int, Object::Trap(TrapObject { active: false, ..tt })));
                        assert(sprung(g_k, *self, c_k, credits@, k as int, j as int, dead));
                        assert forall|j2: int| #[trigger] first_trap_target(g_k, tt.position, tt.owner, j2) implies sprung(g_k, *self, c_k, credits@, k as int, j2, dead) by {
                            if j2 < j {
                                assert(!trap_target(g_k.players@[j2], tt.position, tt.owner));
                            } else if j2 > j {
                                assert(!trap_target(g_k.players@[j as int], tt.position, tt.owner));
                            }
                        }
                    }
                }
            }
            proof {
                assert(trap_step(g_k, *self, c_k, credits@, k as int, dead));
                let gs2 = gs.push(*self);
                let cs2 = cs.push(credits@);
                assert forall|q: int| 0 <= q < k + 1 implies #[trigger] trap_step(gs2[q], gs2[q + 1], cs2[q], cs2[q + 1], q, dead) by {
                    if q < k {
                        assert(gs2[q] == gs[q] && gs2[q + 1] == gs[q + 1] && cs2[q] == cs[q] && cs2[q + 1] == cs[q + 1]);
                    }
                }
                gs = gs2;
                cs = cs2;
            }
            k = k + 1;
        }
        proof {
            assert(traps_trace(gs, cs, dead));
        }
    }

    /// Each nuke damages every wall and every other living player.
    fn resolve_nukes(&mut self, nukes: &Vec<NukeUse>, dead: u32, credits: &mut Vec<KillCredit>)
        requires
            old(self).wf(),
            credits_wf(old(credits)@),
        ensures
            final(self).wf(),
            final(self).steady(*old(self)),
            dead_stay_dead(old(self).players@, final(self).players@),
            same_roster(old(self).players@, final(self).players@),
            same_actions(old(self).players@, final(self).players@),
            final(self).players@.len() == old(self).players@.len(),
            credits_wf(final(credits)@),
            exists|gs: Seq<Game>, cs: Seq<Seq<KillCredit>>|
                #[trigger] nukes_trace(gs, cs, nukes@, dead) && gs[0] == *old(self) && gs.last() == *final(self)
                    && cs[0] == old(credits)@ && cs.last() == final(credits)@,
    {
        let ghost mut gs: Seq<Game> = seq![*self];
        let ghost mut cs: Seq<Seq<KillCredit>> = seq![credits@];
        let mut n: usize = 0;
        while n < nukes.len()
            invariant
                gs.len() == n + 1,
                cs.len() == n + 1,
                gs[0] == *old(self),
                gs.last() == *self,
                cs[0] == old(credits)@,
                cs.last() == credits@,
                forall|q: int| 0 <= q < n ==> #[trigger] blast_rel(gs[q], gs[q + 1], cs[q], cs[q + 1], nukes@[q], dead),
                self.wf(),
                self.steady(*old(self)),
                dead_stay_dead(old(self).players@, self.players@),
                same_roster(old(self).players@, self.players@),
                same_actions(old(self).players@, self.players@),
                self.players@.len() == old(self).players@.len(),
                credits_wf(credits@),
                0 <= n <= nukes@.len(),
            decreases nukes@.len() - n,
        {
            let nuke = &nukes[n];
            let ghost g_n = *self;
            let ghost c_n = credits@;
            let mut k: usize = 0;
            while k < self.map.objects.len()
                invariant
                    self.players == g_n.players,
                    self.config == g_n.config,
                    self.map == (GameMap { objects: self.map.objects, ..g_n.map }),
                    self.map.objects@.len() == g_n.map.objects@.len(),
                    credits@ == c_n,
                    nuke == nukes@[n as int],
                    forall|q: int| 0 <= q < k ==> #[trigger] self.map.objects@[q] == nuked(g_n.map.objects@[q], nuke.damage),
                    forall|q: int| k <= q < self.map.objects@.len() ==> #[trigger] self.map.objects@[q] == g_n.map.objects@[q],
                    self.wf(),
                    self.steady(*old(self)),
                    dead_stay_dead(old(self).players@, self.players@),
                    same_roster(old(self).players@, self.players@),
                    same_actions(old(self).players@, self.players@),
                    self.players@.len() == old(self).players@.len(),
                    credits_wf(credits@),
                    0 <= k <= self.map.objects@.len(),
                decreases self.map.objects@.len() - k,
            {
                let wall = match &self.map.objects[k] {
                    Object::Wall(w) => Some(*w),
                    _ => None,
                };
                if let Some(w) = wall {
                    let mut nw = w;
                    nw.take_damage(nuke.damage);
                    let ghost m = self.map;
                    self.map.objects.set(k, Object::Wall(nw));
                    proof {
                        assert forall|q: int| 0 <= q < self.map.objects@.len() implies self.map.in_bounds((#[trigger] self.map.objects@[q]).pos()) by {
                            assert(self.map.objects@[q].pos() == m.objects@[q].pos());
                        }
                        assert forall|q: int| 0 <= q < self.map.objects@.len() && (#[trigger] self.map.objects@[q]) is Chest implies forall|z: int|
                            0 <= z < self.map.objects@[q]->Chest_0.items@.len() ==> (#[trigger] self.map.objects@[q]->Chest_0.items@[z]).wf() by {
                            assert(self.map.objects@[q] == m.objects@[q]);
                        }
                    }
                }
                k = k + 1;
            }
            let ghost gw = *self;
            proof {
                assert(walls_blasted(g_n, gw, nuke.damage));
            }
            let ghost mut ps: Seq<Game> = seq![*self];
            let ghost mut pcs: Seq<Seq<KillCredit>> = seq![credits@];
            let mut j: usize = 0;
            while j < self.players.len()
                invariant
                    ps.len() == j + 1,
                    pcs.len() == j + 1,
                    ps[0] == gw,
                    ps.last() == *self,
                    pcs[0] == c_n,
                    pcs.last() == credits@,
                    gw.players@.len() == self.players@.len(),
                    nuke == nukes@[n as int],
                    forall|q: int| 0 <= q < j ==> #[trigger] victim_step(ps[q], ps[q + 1], pcs[q], pcs[q + 1], q, *nuke, dead),
                    self.wf(),
                    self.steady(*old(self)),
                    dead_stay_dead(old(self).players@, self.players@),
                    same_roster(old(self).players@, self.players@),
                    same_actions(old(self).players@, self.players@),
                    self.players@.len() == old(self).players@.len(),
                    credits_wf(credits@),
                    0 <= j <= self.players@.len(),
                decreases self.players@.len() - j,
            {
                let ghost g_j = *self;
                let ghost c_j = credits@;
                if self.players[j].is_alive() && !(self.players[j].id == nuke.owner) {
                    self.strike(j, nuke.damage, dead, &nuke.owner, &nuke.item_name, credits);
                }
                proof {
                    assert(victim_step(g_j, *self, c_j, credits@, j as int, *nuke, dead));
                    let ps2 = ps.push(*self);
                    let pcs2 = pcs.push(credits@);
                    assert forall|q: int| 0 <= q < j + 1 implies #[trigger] victim_step(ps2[q], ps2[q + 1], pcs2[q], pcs2[q + 1], q, *nuke, dead) by {
                        if q < j {
                            assert(ps2[q] == ps[q] && ps2[q + 1] == ps[q + 1] && pcs2[q] == pcs[q] && pcs2[q + 1] == pcs[q + 1]);
                        }
                    }
                    ps = ps2;
                    pcs = pcs2;
                }
                j = j + 1;
            }
            proof {
                assert(victims_trace(ps, pcs, *nuke, dead));
                assert(blast_rel(g_n, *self, c_n, credits@, *nuke, dead));
                let gs2 = gs.push(*self);
                let cs2 = cs.push(credits@);
                assert forall|q: int| 0 <= q < n + 1 implies #[trigger] blast_rel(gs2[q], gs2[q + 1], cs2[q], cs2[q + 1], nukes@[q], dead) by {
                    if q < n {
                        assert(gs2[q] == gs[q] && gs2[q + 1] == gs[q + 1] && cs2[q] == cs[q] && cs2[q + 1] == cs[q + 1]);
                    }
                }
                gs = gs2;
                cs = cs2;
            }
            n = n + 1;
        }
        proof {
            assert(nukes_trace(gs, cs, nukes@, dead));
        }
    }

    /// Each live projectile advances; along its path the first living player, else
    /// the first standing wall, is hit and the projectile is spent.
    fn resolve_projectiles(&mut self, dead: u32, credits: &mut Vec<KillCredit>)
        requires
            old(self).wf(),
            credits_wf(old(credits)@),
        ensures
            final(self).wf_core(),
            final(self).steady(*old(self)),
            dead_stay_dead(old(self).players@, final(self).players@),
            same_roster(old(self).players@, final(self).players@),
            same_actions(old(self).players@, final(self).players@),
            final(self).players@.len() == old(self).players@.len(),
            final(self).map.projectiles@.len() == old(self).map.projectiles@.len(),
            credits_wf(final(credits)@),
            exists|gs: Seq<Game>, cs: Seq<Seq<KillCredit>>|
                #[trigger] shot_trace(gs, cs, dead) && gs[0] == *old(self) && gs.last() == *final(self) && cs[0] == old(credits)@
                    && cs.last() == final(credits)@,
    {
        let ghost mut gs: Seq<Game> = seq![*self];
        let ghost mut cs: Seq<Seq<KillCredit>> = seq![credits@];
        let mut k: usize = 0;
        while k < self.map.projectiles.len()
            invariant
                self.wf_core(),
                self.steady(*old(self)),
                dead_stay_dead(old(self).players@, self.players@),
                same_roster(old(self).players@, self.players@),
                same_actions(old(self).players@, self.players@),
                self.players@.len() == old(self).players@.len(),
                self.map.projectiles@.len() == old(self).map.projectiles@.len(),
                forall|q: int| k <= q < self.map.projectiles@.len() ==> self.map.in_bounds(#[trigger] self.map.projectiles@[q].position),
                credits_wf(credits@),
                0 <= k <= self.map.projectiles@.len(),
                gs.len() == k + 1,
                cs.len() == k + 1,
                gs[0] == *old(self),
                gs.last() == *self,
                cs[0] == old(credits)@,
                cs.last() == credits@,
                forall|q: int| 0 <= q < k ==> #[trigger] shot_rel(gs[q], gs[q + 1], cs[q], cs[q + 1], q, dead),
            decreases self.map.projectiles@.len() - k,
        {
            let ghost g0 = *self;
            let ghost c0 = credits@;
            if !self.map.projectiles[k].should_delete() {
                let ghost m = self.map;
                let ghost shot = self.map.projectiles@[k as int];
                proof {
                    lemma_ray(shot.position, shot.direction, shot.speed as int);
                }
                let path = self.map.projectiles[k].tick();
                let ghost ga = *self;
                proof {
                    assert forall|q: int| 0 <= q < self.map.projectiles@.len() implies crate::items::roomy(
                        (#[trigger] self.map.projectiles@[q]).position,
                    ) && self.map.projectiles@[q].speed <= crate::items::MAX_REACH by {
                        if q != k {
                            assert(self.map.projectiles@[q] == m.projectiles@[q]);
                        }
                    }
                    assert forall|q: int| k < q < self.map.projectiles@.len() implies self.map.in_bounds(#[trigger] self.map.projectiles@[q].position) by {
                        assert(self.map.projectiles@[q] == m.projectiles@[q]);
                    }
                    assert(ga.map == (GameMap { projectiles: ga.map.projectiles, ..g0.map }));
                    assert(ga.map.projectiles@ =~= g0.map.projectiles@.update(k as int, Projectile {
                        position: shot.position.ray(shot.direction, shot.speed as int),
                        remaining_ticks: (shot.remaining_ticks - 1) as u32,
                        ..shot
                    }));
                }
                let owner = self.map.projectiles[k].owner.clone();
                let name = self.map.projectiles[k].name.clone();
                let damage = self.map.projectiles[k].damage;
                let ghost mut hit: bool = false;
                let ghost mut hit_at: int = 0;
                let ghost mut gb: Game = ga;
                let mut c: usize = 0;
                while c < path.len()
                    invariant_except_break
                        !hit,
                        *self == ga,
                        credits@ == c0,
                        forall|i2: int| 0 <= i2 < c ==> !#[trigger] blocked(ga, shot, i2),
                    invariant
                        self.wf_core(),
                        self.steady(*old(self)),
                        dead_stay_dead(old(self).players@, self.players@),
                        same_roster(old(self).players@, self.players@),
                        same_actions(old(self).players@, self.players@),
                        self.players@.len() == old(self).players@.len(),
                        self.map.projectiles@.len() == old(self).map.projectiles@.len(),
                        k < self.map.projectiles@.len(),
                        forall|q: int| k < q < self.map.projectiles@.len() ==> self.map.in_bounds(#[trigger] self.map.projectiles@[q].position),
                        credits_wf(credits@),
                        0 <= c <= path@.len(),
                        path@.len() == shot.speed + 1,
                        forall|z: int| 0 <= z < path@.len() ==> #[trigger] path@[z] == shot.position.ray(shot.direction, z),
                        owner == shot.owner,
                        name == shot.name,
                        damage == shot.damage,
                        ga.map.projectiles@[k as int].remaining_ticks == (shot.remaining_ticks - 1) as u32,
                    ensures
                        !hit ==> *self == ga && credits@ == c0 && forall|i2: int| 0 <= i2 <= shot.speed ==> !#[trigger] blocked(ga, shot, i2),
                        hit ==> hit_first(ga, gb, *self, c0, credits@, k as int, shot, dead, hit_at),
                    decreases path@.len() - c,
                {
                    let cell = path[c];
                    if let Some(j) = self.find_target(&cell, None) {
                        proof {
                            assert(first_target(ga, cell, j as int));
                            assert(target_on(ga, cell));
                        }
                        self.strike(j, damage, dead, &owner, &name, credits);
                        let ghost g_struck = *self;
                        let ghost m = self.map;
                        self.map.projectiles[k].mark_for_removal();
                        proof {
                            assert forall|q: int| 0 <= q < self.map.projectiles@.len() implies crate::items::roomy(
                                (#[trigger] self.map.projectiles@[q]).position,
                            ) && self.map.projectiles@[q].speed <= crate::items::MAX_REACH by {
                                if q != k {
                                    assert(self.map.projectiles@[q] == m.projectiles@[q]);
                                }
                            }
                            assert forall|q: int| k < q < self.map.projectiles@.len() implies self.map.in_bounds(#[trigger] self.map.projectiles@[q].position) by {
                                assert(self.map.projectiles@[q] == m.projectiles@[q]);
                            }
                            hit = true;
                            hit_at = c as int;
                            gb = g_struck;
                            assert forall|j2: int| #[trigger] first_target(ga, cell, j2) implies strike_rel(ga, gb, j2, shot.damage, dead, shot.owner, shot.name, c0, credits@) by {
                                if j2 < j {
                                    assert(!is_target(ga.players@[j2], cell, None));
                                } else if j2 > j {
                                    assert(!is_target(ga.players@[j as int], cell, None));
                                }
                            }
                            assert(self.map.projectiles@ =~= gb.map.projectiles@.update(k as int, Projectile {
                                remaining_ticks: 0,
                                ..ga.map.projectiles@[k as int]
                            }));
                        }
                        break;
                    }
                    if let Some(w) = self.find_standing_wall(&cell) {
                        proof {
                            assert(first_wall(ga, cell, w as int));
                            assert(wall_on(ga, cell));
                        }
                        self.hit_wall(w, damage, &owner);
                        let ghost g_hit = *self;
                        let ghost m = self.map;
                        self.map.projectiles[k].mark_for_removal();
                        proof {
                            assert forall|q: int| 0 <= q < self.map.projectiles@.len() implies crate::items::roomy(
                                (#[trigger] self.map.projectiles@[q]).position,
                            ) && self.map.projectiles@[q].speed <= crate::items::MAX_REACH by {
                                if q != k {
                                    assert(self.map.projectiles@[q] == m.projectiles@[q]);
                                }
                            }
                            assert forall|q: int| k < q < self.map.projectiles@.len() implies self.map.in_bounds(#[trigger] self.map.projectiles@[q].position) by {
                                assert(self.map.projectiles@[q] == m.projectiles@[q]);
                            }
                            hit = true;
                            hit_at = c as int;
                            gb = g_hit;
                            assert(!target_on(ga, cell));
                            assert forall|w2: int| #[trigger] first_wall(ga, cell, w2) implies wall_rel(ga, gb, w2, shot.damage, shot.owner) by {
                                if w2 < w {
                                    assert(!standing_wall_at(ga.map.objects@[w2], cell));
                                } else if w2 > w {
                                    assert(!standing_wall_at(ga.map.objects@[w as int], cell));
                                }
                            }
                            assert(self.map.projectiles@ =~= gb.map.projectiles@.update(k as int, Projectile {
                                remaining_ticks: 0,
                                ..ga.map.projectiles@[k as int]
                            }));
                        }
                        break;
                    }
                    proof {
                        assert(!target_on(ga, cell));
                        assert(!wall_on(ga, cell));
                        assert(!blocked(ga, shot, c as int));
                    }
                    c = c + 1;
                }
                proof {
                    assert(ga.map.projectiles@[k as int] == Projectile {
                        position: shot.position.ray(shot.direction, shot.speed as int),
                        remaining_ticks: (shot.remaining_ticks - 1) as u32,
                        ..shot
                    });
                    assert(advanced(g0, ga, k as int));
                    if hit {
                        assert(hit_first(ga, gb, *self, c0, credits@, k as int, shot, dead, hit_at));
                    }
                    assert(shot_outcome(ga, *self, c0, credits@, k as int, shot, dead));
                    assert(shot_rel(g0, *self, c0, credits@, k as int, dead));
                }
            } else {
                proof {
                    assert(shot_rel(g0, *self, c0, credits@, k as int, dead));
                }
            }
            proof {
                let gs2 = gs.push(*self);
                let cs2 = cs.push(credits@);
                assert forall|q: int| 0 <= q < k + 1 implies #[trigger] shot_rel(gs2[q], gs2[q + 1], cs2[q], cs2[q + 1], q, dead) by {
                    if q < k {
                        assert(gs2[q] == gs[q] && gs2[q + 1] == gs[q + 1] && cs2[q] == cs[q] && cs2[q + 1] == cs[q + 1]);
                    }
                }
                gs = gs2;
                cs = cs2;
            }
            k = k + 1;
        }
        proof {
            assert(shot_trace(gs, cs, dead));
        }
    }
}

/// No event of the list ends a game.
pub open spec fn no_game_end(events: Seq<Event>) -> bool {
    forall|i: int| 0 <= i < events.len() ==> !((#[trigger] events[i]) is GameEnd)
}

/// The living-player count at or below which a game is over.
pub open spec fn survivor_threshold(allow_single_player: bool) -> nat {
    if allow_single_player { 0 } else { 1 }
}

impl Game {
    /// Living players standing on the firewall take its damage; a death there is
    /// credited to nobody and reported as a kill by the firewall, without weapon.
    pub fn burn_players(&mut self, dead: u32, events: &mut Vec<Event>)
        requires
            old(self).wf_core(),
            no_game_end(old(events)@),
        ensures
            final(self).wf_core(),
            final(self).steady(*old(self)),
            dead_stay_dead(old(self).players@, final(self).players@),
            same_roster(old(self).players@, final(self).players@),
            same_actions(old(self).players@, final(self).players@),
            final(self).map == old(self).map,
            final(self).players@.len() == old(self).players@.len(),
            forall|i: int| 0 <= i < old(self).players@.len() ==> #[trigger] final(self).players@[i] == burned(
                old(self).players@[i],
                old(self).map,
                old(self).config,
                dead,
            ),
            final(events)@.len() >= old(events)@.len(),
            final(events)@.subrange(0, old(events)@.len() as int) == old(events)@,
            fire_kill_events(
                final(events)@.subrange(old(events)@.len() as int, final(events)@.len() as int),
                fire_victims(old(self).players@, old(self).map, old(self).config, dead),
            ),
            no_game_end(final(events)@),
    {
        let mut j: usize = 0;
        while j < self.players.len()
            invariant
                self.wf_core(),
                self.steady(*old(self)),
                dead_stay_dead(old(self).players@, self.players@),
                same_roster(old(self).players@, self.players@),
                same_actions(old(self).players@, self.players@),
                self.map == old(self).map,
                self.players@.len() == old(self).players@.len(),
                no_game_end(events@),
                0 <= j <= self.players@.len(),
                forall|i: int| 0 <= i < j ==> #[trigger] self.players@[i] == burned(old(self).players@[i], old(self).map, old(self).config, dead),
                forall|i: int| j <= i < self.players@.len() ==> #[trigger] self.players@[i] == old(self).players@[i],
                events@.len() >= old(events)@.len(),
                events@.subrange(0, old(events)@.len() as int) == old(events)@,
                fire_kill_events(
                    events@.subrange(old(events)@.len() as int, events@.len() as int),
                    fire_victims(old(self).players@.take(j as int), old(self).map, old(self).config, dead),
                ),
            decreases self.players@.len() - j,
        {
            let ghost before = *self;
            let ghost ev0 = events@;
            if self.players[j].is_alive() && self.map.is_firewall(&self.players[j].position) {
                let damage = self.config.firewall_damage;
                let dm = self.config.score.death_multiplier_percent;
                self.players[j].take_damage(damage, dead, dm);
                if !self.players[j].is_alive() {
                    let s = self.config.score.get_killed_by_firewall;
                    self.players[j].earn_score(s);
                    let name = self.players[j].name.clone();
                    events.push(Event::new_kill("FireWall".to_owned(), name, None));
                }
            }
            proof {
                assert forall|q: int| 0 <= q < self.players@.len() implies (#[trigger] self.players@[q]).wf() by {
                    if q != j {
                        assert(self.players@[q] == before.players@[q]);
                    }
                }
                assert forall|q: int| j + 1 <= q < self.players@.len() implies #[trigger] self.players@[q] == old(self).players@[q] by {
                    assert(self.players@[q] == before.players@[q]);
                }
                assert forall|q: int| 0 <= q < j + 1 implies #[trigger] self.players@[q] == burned(old(self).players@[q], old(self).map, old(self).config, dead) by {
                    if q < j {
                        assert(self.players@[q] == before.players@[q]);
                    }
                }
                assert(events@.subrange(0, old(events)@.len() as int) =~= ev0.subrange(0, old(events)@.len() as int));
                reveal_strlit("FireWall");
                let ps = old(self).players@;
                assert(ps.take(j as int + 1).drop_last() =~= ps.take(j as int));
                let v0 = fire_victims(ps.take(j as int), old(self).map, old(self).config, dead);
                let v1 = fire_victims(ps.take(j as int + 1), old(self).map, old(self).config, dead);
                let e0 = ev0.subrange(old(events)@.len() as int, ev0.len() as int);
                let e1 = events@.subrange(old(events)@.len() as int, events@.len() as int);
                if events@.len() == ev0.len() {
                    assert(e1 =~= e0);
                    assert(v1 =~= v0);
                } else {
                    assert(e1 =~= e0.push(events@.last()));
                    assert(v1 =~= v0.push(ps[j as int].name));
                }
                assert(fire_kill_events(e1, v1));
            }
            j = j + 1;
        }
        proof {
            assert(old(self).players@.take(j as int) =~= old(self).players@);
        }
    }

    /// Credits every queued kill, in order.
    fn settle_kills(&mut self, credits: Vec<KillCredit>, nukes: &Vec<NukeUse>, events: &mut Vec<Event>)
        requires
            old(self).wf_core(),
            credits_wf(credits@),
            no_game_end(old(events)@),
        ensures
            final(self).wf_core(),
            final(self).steady(*old(self)),
            dead_stay_dead(old(self).players@, final(self).players@),
            same_roster(old(self).players@, final(self).players@),
            same_actions(old(self).players@, final(self).players@),
            final(self).map == old(self).map,
            final(self).players@.len() == old(self).players@.len(),
            no_game_end(final(events)@),
            exists|gs: Seq<Game>, evs: Seq<Option<Event>>|
                #[trigger] settle_trace(gs, credits@, nukes@, evs) && gs[0] == *old(self) && gs.last() == *final(self)
                    && final(events)@ == old(events)@ + reported(evs),
    {
        let ghost cr = credits@;
        let ghost n = cr.len();
        let mut credits = credits;
        let mut rev = drain_reversed(&mut credits);
        let ghost mut gs: Seq<Game> = seq![*self];
        let ghost mut evs: Seq<Option<Event>> = Seq::empty();
        assert(reported(evs) =~= Seq::<Event>::empty());
        assert(events@ =~= old(events)@ + reported(evs));
        while rev.len() > 0
            invariant
                self.wf_core(),
                self.steady(*old(self)),
                dead_stay_dead(old(self).players@, self.players@),
                same_roster(old(self).players@, self.players@),
                same_actions(old(self).players@, self.players@),
                self.map == old(self).map,
                self.players@.len() == old(self).players@.len(),
                no_game_end(events@),
                credits_wf(rev@),
                rev@.len() <= n,
                forall|k: int| 0 <= k < rev@.len() ==> #[trigger] rev@[k] == cr[n - 1 - k],
                gs.len() == n - rev@.len() + 1,
                evs.len() == n - rev@.len(),
                gs[0] == *old(self),
                gs.last() == *self,
                forall|i: int| 0 <= i < evs.len() ==> #[trigger] credit_rel(gs[i], gs[i + 1], cr[i], nukes@, evs[i]),
                events@ == old(events)@ + reported(evs),
            decreases rev@.len(),
        {
            let ghost idx = n - rev@.len();
            let c = rev.pop().unwrap();
            assert(c == cr[idx]);
            assert(stacks_wf(c.loot@));
            let ghost before = *self;
            let ghost ev_before = events@;
            let e = self.credit_kill(c, nukes);
            let ghost e_spec = e;
            match e {
                Some(ev) => {
                    events.push(ev);
                },
                None => {},
            }
            proof {
                let gs2 = gs.push(*self);
                let evs2 = evs.push(e_spec);
                assert(evs2.drop_last() =~= evs);
                assert(reported(evs2) =~= reported(evs) + (match e_spec { Some(x) => seq![x], None => Seq::<Event>::empty() }));
                assert(events@ =~= old(events)@ + reported(evs2));
                assert forall|i: int| 0 <= i < evs2.len() implies #[trigger] credit_rel(gs2[i], gs2[i + 1], cr[i], nukes@, evs2[i]) by {
                    if i < evs.len() {
                        assert(gs2[i] == gs[i] && gs2[i + 1] == gs[i + 1] && evs2[i] == evs[i]);
                    }
                }
                gs = gs2;
                evs = evs2;
            }
        }
        proof {
            assert(settle_trace(gs, cr, nukes@, evs));
        }
    }

    /// When no more living players than the threshold remain, the first survivor (if
    /// any) is awarded the victory and a win, and the game-end event names it.
    pub fn check_game_over(&mut self, events: &mut Vec<Event>) -> (r: bool)
        requires
            old(self).wf(),
        ensures
            final(self).wf(),
            final(self).steady(*old(self)),
            dead_stay_dead(old(self).players@, final(self).players@),
            same_roster(old(self).players@, final(self).players@),
            same_actions(old(self).players@, final(self).players@),
            final(self).map == old(self).map,
            final(self).players@.len() == old(self).players@.len(),
            alive_count(final(self).players@) == alive_count(old(self).players@),
            first_alive(final(self).players@) == first_alive(old(self).players@),
            r == (alive_count(old(self).players@) <= survivor_threshold(old(self).config.allow_single_player)),
            !r ==> final(self).players == old(self).players && final(events)@ == old(events)@,
            r ==> {
                let w = first_alive(old(self).players@);
                &&& w < 0 ==> final(self).players == old(self).players && final(events)@ == old(events)@.push(
                    Event::GameEnd { winner: None },
                )
                &&& w >= 0 ==> {
                    let p = old(self).players@[w];
                    &&& others_unchanged(final(self).players@, old(self).players@, w)
                    &&& final(self).players@[w] == (Player {
                        score: add_score(p.score, old(self).config.score.victory as int),
                        total_wins: add_u32(p.total_wins, 1),
                        ..p
                    })
                    &&& final(events)@ == old(events)@.push(Event::GameEnd { winner: Some(p.name) })
                }
            },
    {
        proof {
            lemma_first_alive(self.players@);
        }
        let mut alive: usize = 0;
        let mut first: Option<usize> = None;
        let mut i: usize = 0;
        while i < self.players.len()
            invariant
                0 <= i <= self.players@.len(),
                alive == alive_count(self.players@.take(i as int)),
                alive <= i,
                first is None <==> first_alive(self.players@.take(i as int)) < 0,
                first is Some ==> first->0 == first_alive(self.players@.take(i as int)),
            decreases self.players@.len() - i,
        {
            assert(self.players@.take(i as int + 1).drop_last() =~= self.players@.take(i as int));
            if self.players[i].is_alive() {
                alive = alive + 1;
                if first.is_none() {
                    first = Some(i);
                }
            }
            i = i + 1;
        }
        assert(self.players@.take(i as int) =~= self.players@);
        let threshold: usize = if self.config.allow_single_player { 0 } else { 1 };
        if alive > threshold {
            return false;
        }
        let winner = match first {
            Some(j) => {
                let ghost before = *self;
                let v = self.config.score.victory;
                self.players[j].earn_score(v);
                self.players[j].add_win();
                proof {
                    assert forall|q: int| 0 <= q < self.players@.len() implies (#[trigger] self.players@[q]).wf() by {
                        if q != j {
                            assert(self.players@[q] == before.players@[q]);
                        }
                    }
                    assert forall|q: int| 0 <= q < self.players@.len() implies (#[trigger] self.players@[q]).alive() == before.players@[q].alive() by {
                        if q != j {
                            assert(self.players@[q] == before.players@[q]);
                        }
                    }
                    lemma_alive_count_same(self.players@, before.players@);
                    lemma_first_alive_same(self.players@, before.players@);
                }
                Some(self.players[j].name.clone())
            },
            None => None,
        };
        events.push(Event::new_game_end(winner));
        true
    }

    /// Advances the world by one tick and returns what happened, in order: actions,
    /// traps, nukes, projectiles, firewall spread and damage, kill credits, cleanup,
    /// and the game-over check. After a game-end event the world is to be regenerated.
    pub fn tick(&mut self) -> (r: Vec<Event>)
        requires
            old(self).wf(),
        ensures
            final(self).wf(),
            final(self).config == old(self).config,
            final(self).map.width == old(self).map.width,
            final(self).map.height == old(self).map.height,
            final(self).players@.len() == old(self).players@.len(),
            dead_stay_dead(old(self).players@, final(self).players@),
            same_roster(old(self).players@, final(self).players@),
            forall|i: int| 0 <= i < old(self).players@.len() && (#[trigger] old(self).players@[i]).alive() ==> final(self).players@[i].action is None,
            forall|p: Position| old(self).map.fire_at(p) ==> final(self).map.fire_at(p),
            exists|draws: Seq<bool>|
                #[trigger] spread_rel(old(self).map, final(self).map, draws) && draws.len() == 4 * old(self).map.width
                    * old(self).map.height && (old(self).config.world_gen.firewall_speed == 1 ==> forall|i: int|
                    0 <= i < draws.len() ==> #[trigger] draws[i]),
            forall|k: int| 0 <= k < final(self).map.objects@.len() ==> kept_object(#[trigger] final(self).map.objects@[k]),
            forall|k: int| 0 <= k < final(self).map.projectiles@.len() ==> (#[trigger] final(self).map.projectiles@[k]).remaining_ticks != 0,
            exists|gs: Seq<Game>, es: Seq<Seq<Event>>, ns: Seq<Seq<NukeUse>>|
                #[trigger] act_trace(gs, es, ns) && gs[0] == *old(self) && es[0].len() == 0 && ns[0].len() == 0
                    && es.last().len() <= r@.len() && r@.subrange(0, es.last().len() as int) == es.last()
                    && exists|cgs: Seq<Game>, credits: Seq<KillCredit>, evs: Seq<Option<Event>>, n: int|
                    #[trigger] kills_reported(r@, cgs, credits, ns.last(), evs, n) && cgs[0].config == old(self).config
                    && final(self).map.objects@ == kept_objects(cgs.last().map.objects@)
                    && final(self).map.projectiles@ == kept_projectiles(cgs.last().map, cgs.last().map.projectiles@)
                    && over_rel(cgs.last(), *final(self), r@)
                    && exists|pre: Game| #[trigger] burn_step(pre, cgs[0], dead_before(old(self).players@), r@, n)
                    && exists|sgs: Seq<Game>, scs: Seq<Seq<KillCredit>>| #[trigger] shot_trace(sgs, scs, dead_before(old(self).players@))
                    && sgs.last().players == pre.players && scs.last() == credits
                    && exists|ngs: Seq<Game>, ncs: Seq<Seq<KillCredit>>| #[trigger] nukes_trace(ngs, ncs, ns.last(), dead_before(old(self).players@))
                    && ngs.last() == sgs[0] && ncs.last() == scs[0]
                    && exists|tgs: Seq<Game>, tcs: Seq<Seq<KillCredit>>| #[trigger] traps_trace(tgs, tcs, dead_before(old(self).players@))
                    && tgs.last() == ngs[0] && tcs.last() == ncs[0] && tgs[0] == gs.last() && tcs[0].len() == 0,
            (r@.len() > 0 && r@.last() is GameEnd) == (alive_count(final(self).players@) <= survivor_threshold(
                old(self).config.allow_single_player,
            )),
            r@.len() > 0 ==> no_game_end(r@.drop_last()),
            r@.len() > 0 && r@.last() is GameEnd ==> r@.last()->GameEnd_winner == (if first_alive(final(self).players@) >= 0 {
                Some(final(self).players@[first_alive(final(self).players@)].name)
            } else {
                None
            }),
    {
        let dead = self.dead_count();
        let mut events: Vec<Event> = Vec::new();
        let mut nukes: Vec<NukeUse> = Vec::new();
        let mut credits: Vec<KillCredit> = Vec::new();
        let ghost g0 = *self;
        self.act_players(&mut events, &mut nukes);
        let ghost ev_act = events@;
        let ghost g_act = *self;
        self.resolve_traps(dead, &mut credits);
        let ghost g_traps = *self;
        let ghost c_traps = credits@;
        self.resolve_nukes(&nukes, dead, &mut credits);
        let ghost pre_shots = *self;
        let ghost credits_pre_shots = credits@;
        self.resolve_projectiles(dead, &mut credits);
        let ghost post_shots = *self;
        let ghost credits_post_shots = credits@;
        let ghost before_fire = self.map;
        let draws = self.spread_firewall();
        let ghost after_fire = self.map;
        let ghost pre_burn = *self;
        let ghost ev_pre_burn = events@;
        self.burn_players(dead, &mut events);
        let ghost head = events@;
        let ghost credits_spec = credits@;
        let ghost pre_settle = *self;
        self.settle_kills(credits, &nukes, &mut events);
        let ghost after_settle = events@;
        let ghost settled_game = *self;
        let ghost before_clean = self.map;
        self.cleanup();
        proof {
            lemma_cleanup_removes_broken(before_clean.objects@);
            lemma_cleanup_live(before_clean, before_clean.projectiles@);
        }
        let ghost before_end = events@;
        let ghost players_before_end = self.players@;
        let ghost g_before_end = *self;
        let over = self.check_game_over(&mut events);
        proof {
            lemma_spread_terrain(before_fire, old(self).map, draws@);
            assert(spread_rel(old(self).map, self.map, draws@)) by {
                assert forall|p: Position| #[trigger] self.map.fire_at(p) == (old(self).map.fire_at(p) || (old(self).map.in_bounds(p)
                    && spread_to(old(self).map, draws@, p))) by {
                    assert(after_fire.fire_at(p) == (before_fire.fire_at(p) || (before_fire.in_bounds(p) && spread_to(before_fire, draws@, p))));
                    assert(spread_to(before_fire, draws@, p) == spread_to(old(self).map, draws@, p));
                }
            }
            let (gs, evs) = choose|gs: Seq<Game>, evs: Seq<Option<Event>>|
                #[trigger] settle_trace(gs, credits_spec, nukes@, evs) && gs[0] == pre_settle && gs.last() == settled_game
                    && after_settle == head + reported(evs);
            assert(settle_trace(gs, credits_spec, nukes@, evs));
            assert(events@.subrange(head.len() as int, (head.len() + reported(evs).len()) as int) =~= reported(evs));
            assert(kills_reported(events@, gs, credits_spec, nukes@, evs, head.len() as int));
            let victims = fire_victims(pre_burn.players@, pre_burn.map, pre_burn.config, dead);
            assert(head.subrange(ev_pre_burn.len() as int, head.len() as int) =~= events@.subrange(
                head.len() - victims.len(),
                head.len() as int,
            ));
            assert(burn_step(pre_burn, gs[0], dead, events@, head.len() as int));
            let (sgs, scs) = choose|sgs: Seq<Game>, scs: Seq<Seq<KillCredit>>|
                #[trigger] shot_trace(sgs, scs, dead) && sgs[0] == pre_shots && sgs.last() == post_shots && scs[0] == credits_pre_shots
                    && scs.last() == credits_post_shots;
            assert(shot_trace(sgs, scs, dead));
            assert(sgs.last().players == pre_burn.players);
            assert(scs.last() == credits_spec);
            let (ngs, ncs) = choose|ngs: Seq<Game>, ncs: Seq<Seq<KillCredit>>|
                #[trigger] nukes_trace(ngs, ncs, nukes@, dead) && ngs[0] == g_traps && ngs.last() == pre_shots && ncs[0] == c_traps
                    && ncs.last() == credits_pre_shots;
            assert(nukes_trace(ngs, ncs, nukes@, dead));
            let (tgs, tcs) = choose|tgs: Seq<Game>, tcs: Seq<Seq<KillCredit>>|
                #[trigger] traps_trace(tgs, tcs, dead) && tgs[0] == g_act && tgs.last() == g_traps && tcs[0] == Seq::<KillCredit>::empty()
                    && tcs.last() == c_traps;
            assert(traps_trace(tgs, tcs, dead));
            assert(g_before_end.players == settled_game.players);
            assert(g_before_end.config == settled_game.config);
            if over {
                assert(events@.last() is GameEnd);
            } else if events@.len() > 0 {
                assert(events@ == before_end);
                assert(!(events@.last() is GameEnd)) by {
                    assert(before_end[before_end.len() - 1] == events@.last());
                }
            }
            assert(over_rel(settled_game, *self, events@));
            let (ags, aes, ans) = choose|ags: Seq<Game>, aes: Seq<Seq<Event>>, ans: Seq<Seq<NukeUse>>|
                #[trigger] act_trace(ags, aes, ans) && ags[0] == g0 && ags.last() == g_act && aes[0] == Seq::<Event>::empty()
                    && aes.last() == ev_act && ans[0] == Seq::<NukeUse>::empty() && ans.last() == nukes@;
            assert(act_trace(ags, aes, ans));
            assert(head.subrange(0, ev_act.len() as int) == ev_act);
            assert(events@.subrange(0, ev_act.len() as int) =~= ev_act);
            if events@.len() > 0 {
                assert(no_game_end(events@.drop_last())) by {
                    if over {
                        assert(events@.drop_last() =~= before_end);
                    } else {
                        assert forall|i: int| 0 <= i < events@.drop_last().len() implies !((#[trigger] events@.drop_last()[i]) is GameEnd) by {
                            assert(events@.drop_last()[i] == before_end[i]);
                        }
                    }
                }
            }
            assert forall|p: Position| old(self).map.fire_at(p) implies self.map.fire_at(p) by {
                assert(before_fire.same_terrain(old(self).map));
                assert(before_fire.fire_at(p));
                assert(after_fire.fire_at(p));
                assert(self.map.same_terrain(after_fire));
            }
            if !over && events@.len() > 0 {
                assert(!(before_end[before_end.len() - 1] is GameEnd));
            }
        }
        events
    }
}

/// Two player lists that agree on who is alive have the same first survivor.
pub proof fn lemma_first_alive_same(a: Seq<Player>, b: Seq<Player>)
    requires
        a.len() == b.len(),
        forall|q: int| 0 <= q < a.len() ==> #[trigger] a[q].alive() == b[q].alive(),
    ensures
        first_alive(a) == first_alive(b),
    decreases a.len(),
{
    if a.len() > 0 {
        assert forall|q: int| 0 <= q < a.len() - 1 implies #[trigger] a.drop_last()[q].alive() == b.drop_last()[q].alive() by {
            assert(a.drop_last()[q] == a[q]);
            assert(b.drop_last()[q] == b[q]);
        }
        lemma_first_alive_same(a.drop_last(), b.drop_last());
    }
}

/// Two player lists that agree on who is alive have the same living count.
pub proof fn lemma_alive_count_same(a: Seq<Player>, b: Seq<Player>)
    requires
        a.len() == b.len(),
        forall|q: int| 0 <= q < a.len() ==> #[trigger] a[q].alive() == b[q].alive(),
    ensures
        alive_count(a) == alive_count(b),
    decreases a.len(),
{
    if a.len() > 0 {
        assert forall|q: int| 0 <= q < a.len() - 1 implies #[trigger] a.drop_last()[q].alive() == b.drop_last()[q].alive() by {
            assert(a.drop_last()[q] == a[q]);
            assert(b.drop_last()[q] == b[q]);
        }
        lemma_alive_count_same(a.drop_last(), b.drop_last());
    }
}

} // verus!
