//! A team's player: stats, inventory and what one tick of its action does.
use vstd::prelude::*;
use crate::config::{Config, WorldGenConfig};
use crate::entities::{Action, ActionUseItem, InventoryItem, Object, Projectile, TrapObject, WallObject, WALL_HP, lemma_ray, has_stock};
use crate::items::{BuffEffect, Item, ItemData, ItemPlacedObject, ItemQuantity, MAX_REACH, roomy};
use crate::map::GameMap;
use crate::types::{CardinalDirection, Direction, PlayerId, Position, chebyshev};

verus! {

/// Largest hit points and shield that a buff can reach.
pub const MAX_STAT: u32 = 100;

/// `s + d`, held within the range of `i32`.
pub open spec fn add_score(s: i32, d: int) -> i32 {
    if s + d > i32::MAX {
        i32::MAX
    } else if s + d < i32::MIN {
        i32::MIN
    } else {
        (s + d) as i32
    }
}

/// `s + d`, held within the range of `i32`.
pub fn plus_score(s: i32, d: i64) -> (r: i32)
    requires
        i32::MIN * u32::MAX <= d <= i32::MAX * u32::MAX,
    ensures
        r == add_score(s, d as int),
{
    let v: i64 = s as i64 + d;
    if v > i32::MAX as i64 {
        i32::MAX
    } else if v < i32::MIN as i64 {
        i32::MIN
    } else {
        v as i32
    }
}

/// `percent * dead / 100`, rounded down.
pub open spec fn death_bonus(percent: i32, dead: u32) -> int {
    let v = percent * dead;
    if v >= 0 { v / 100 } else { -((-v + 99) / 100) }
}

/// `a + b`, held within the range of `u32`.
pub open spec fn add_u32(a: u32, b: int) -> u32 {
    if a + b > u32::MAX { u32::MAX } else { (a + b) as u32 }
}

/// `a - b`, or 0.
pub open spec fn sub_u32(a: u32, b: int) -> u32 {
    if a >= b { (a - b) as u32 } else { 0 }
}

/// The smaller of `a + b` and `MAX_STAT`.
pub open spec fn capped(a: u32, b: u32) -> u32 {
    if a + b > MAX_STAT { MAX_STAT } else { (a + b) as u32 }
}

/// `damage * percent / 100`, rounded down and held within `u32`.
pub open spec fn scaled(damage: u32, percent: u32) -> u32 {
    let v = damage * percent / 100;
    if v > u32::MAX { u32::MAX } else { v as u32 }
}

/// Whether a stack holds the same item as `it`.
pub open spec fn same_stack(a: InventoryItem, it: InventoryItem) -> bool {
    a.name@ == it.name@ && a.data == it.data
}

/// Index of the first stack of `inv` that holds the same item as `it`, or -1.
pub open spec fn first_stack(inv: Seq<InventoryItem>, it: InventoryItem) -> int
    decreases inv.len(),
{
    if inv.len() == 0 {
        -1
    } else if same_stack(inv[0], it) {
        0
    } else {
        let r = first_stack(inv.subrange(1, inv.len() as int), it);
        if r < 0 { -1 } else { r + 1 }
    }
}

/// `inv` after picking up one stack.
pub open spec fn merge_one(inv: Seq<InventoryItem>, it: InventoryItem) -> Seq<InventoryItem> {
    let i = first_stack(inv, it);
    if i < 0 {
        inv.push(it)
    } else {
        inv.update(i, picked_up(inv[i], it.quantity))
    }
}

/// `inv` after picking up each stack of `items` in turn.
pub open spec fn merge_all(inv: Seq<InventoryItem>, items: Seq<InventoryItem>) -> Seq<InventoryItem>
    decreases items.len(),
{
    if items.len() == 0 {
        inv
    } else {
        merge_one(merge_all(inv, items.drop_last()), items.last())
    }
}

/// A stack after a stack of quantity `q` of the same item joined it.
pub open spec fn picked_up(s: InventoryItem, q: ItemQuantity) -> InventoryItem {
    InventoryItem {
        quantity: match (q, s.quantity) {
            (ItemQuantity::Infinite, _) => ItemQuantity::Infinite,
            (ItemQuantity::Finite(n), ItemQuantity::Finite(e)) => ItemQuantity::Finite(
                if e + n <= u32::MAX { (e + n) as u32 } else { u32::MAX },
            ),
            (ItemQuantity::Finite(_), ItemQuantity::Infinite) => ItemQuantity::Infinite,
        },
        ..s
    }
}

/// Index of the first stack of `inv` named `name` that can be used now, or -1.
pub open spec fn first_usable(inv: Seq<InventoryItem>, name: Seq<char>, ignore_cooldowns: bool) -> int
    decreases inv.len(),
{
    if inv.len() == 0 {
        -1
    } else if inv[0].spec_usable(ignore_cooldowns) && inv[0].name@ == name {
        0
    } else {
        let r = first_usable(inv.subrange(1, inv.len() as int), name, ignore_cooldowns);
        if r < 0 { -1 } else { r + 1 }
    }
}

proof fn lemma_first_stack(inv: Seq<InventoryItem>, it: InventoryItem, i: int)
    requires
        0 <= i <= inv.len(),
        forall|j: int| 0 <= j < i ==> !same_stack(#[trigger] inv[j], it),
        i < inv.len() ==> same_stack(inv[i], it),
    ensures
        first_stack(inv, it) == (if i < inv.len() { i } else { -1 }),
    decreases inv.len(),
{
    if inv.len() > 0 && i > 0 {
        let rest = inv.subrange(1, inv.len() as int);
        assert(!same_stack(inv[0], it));
        assert forall|j: int| 0 <= j < i - 1 implies !same_stack(#[trigger] rest[j], it) by {
            assert(rest[j] == inv[j + 1]);
        }
        lemma_first_stack(rest, it, i - 1);
    }
}

proof fn lemma_first_usable(inv: Seq<InventoryItem>, name: Seq<char>, ign: bool, i: int)
    requires
        0 <= i <= inv.len(),
        forall|j: int| 0 <= j < i ==> !((#[trigger] inv[j]).spec_usable(ign) && inv[j].name@ == name),
        i < inv.len() ==> inv[i].spec_usable(ign) && inv[i].name@ == name,
    ensures
        first_usable(inv, name, ign) == (if i < inv.len() { i } else { -1 }),
    decreases inv.len(),
{
    if inv.len() > 0 && i > 0 {
        let rest = inv.subrange(1, inv.len() as int);
        assert(!(inv[0].spec_usable(ign) && inv[0].name@ == name));
        assert forall|j: int| 0 <= j < i - 1 implies !((#[trigger] rest[j]).spec_usable(ign) && rest[j].name@ == name) by {
            assert(rest[j] == inv[j + 1]);
        }
        lemma_first_usable(rest, name, ign, i - 1);
    }
}

/// What one tick of a player's action asks of the world.
pub enum PlayerTickResult {
    Projectile(Vec<Projectile>),
    Placed(Vec<Object>),
    Nuke { item_name: String, damage: u32 },
    SegFault,
    Nothing,
}

#[derive(Debug)]
pub struct Player {
    pub id: PlayerId,
    pub name: String,
    pub score: i32,
    pub hp: u32,
    pub shield: u32,
    pub position: Position,
    /// Where the player stood before its first move since spawning.
    pub last_position: Option<Position>,
    pub inventory: Vec<InventoryItem>,
    pub remaining_haste_ticks: u32,
    pub remaining_damage_ticks: u32,
    pub action: Option<Action>,
    pub alive_time: u32,
    pub total_kills: u32,
    pub total_wins: u32,
    pub total_opened_chests: u32,
    pub total_segfaults: u32,
}

/// Whether every stack holds a well-formed item.
pub open spec fn stacks_wf(inv: Seq<InventoryItem>) -> bool {
    forall|i: int| 0 <= i < inv.len() ==> (#[trigger] inv[i]).data.wf()
}

/// Starting stacks made from configured items.
pub open spec fn loadout(items: Seq<Item>) -> Seq<InventoryItem> {
    items.map_values(|it: Item| InventoryItem::spec_new(it))
}

/// Builds one stack per configured item.
pub fn make_loadout(items: &Vec<Item>) -> (r: Vec<InventoryItem>)
    ensures
        r@ == loadout(items@),
{
    let mut r: Vec<InventoryItem> = Vec::new();
    let mut i: usize = 0;
    while i < items.len()
        invariant
            0 <= i <= items@.len(),
            r@ == loadout(items@.take(i as int)),
        decreases items@.len() - i,
    {
        r.push(InventoryItem::new(&items[i]));
        assert(loadout(items@.take(i as int + 1)) =~= loadout(items@.take(i as int)).push(
            InventoryItem::spec_new(items@[i as int]),
        ));
        i = i + 1;
    }
    assert(items@.take(items@.len() as int) =~= items@);
    r
}

impl Clone for Action {
    fn clone(&self) -> (r: Action)
        ensures
            r == *self,
    {
        match self {
            Action::Move { position } => Action::Move { position: *position },
            Action::Phase { direction } => Action::Phase { direction: *direction },
            Action::OpenChest { position } => Action::OpenChest { position: *position },
            Action::UseItem { name, data } => Action::UseItem { name: name.clone(), data: *data },
            Action::SegFault => Action::SegFault,
            Action::Skip => Action::Skip,
        }
    }
}

impl Player {
    pub open spec fn wf(self) -> bool {
        roomy(self.position) && stacks_wf(self.inventory@)
    }

    pub open spec fn alive(self) -> bool {
        self.hp > 0
    }

    /// Equal fields, and equal inventory contents.
    pub open spec fn same(self, o: Player) -> bool {
        &&& self.id == o.id
        &&& self.name == o.name
        &&& self.score == o.score
        &&& self.hp == o.hp
        &&& self.shield == o.shield
        &&& self.position == o.position
        &&& self.last_position == o.last_position
        &&& self.inventory@ == o.inventory@
        &&& self.remaining_haste_ticks == o.remaining_haste_ticks
        &&& self.remaining_damage_ticks == o.remaining_damage_ticks
        &&& self.action == o.action
        &&& self.alive_time == o.alive_time
        &&& self.total_kills == o.total_kills
        &&& self.total_wins == o.total_wins
        &&& self.total_opened_chests == o.total_opened_chests
        &&& self.total_segfaults == o.total_segfaults
    }

    /// Equal in everything but the inventory.
    pub open spec fn same_but_inventory(self, o: Player) -> bool {
        &&& self.id == o.id
        &&& self.name == o.name
        &&& self.score == o.score
        &&& self.hp == o.hp
        &&& self.shield == o.shield
        &&& self.position == o.position
        &&& self.last_position == o.last_position
        &&& self.remaining_haste_ticks == o.remaining_haste_ticks
        &&& self.remaining_damage_ticks == o.remaining_damage_ticks
        &&& self.action == o.action
        &&& self.alive_time == o.alive_time
        &&& self.total_kills == o.total_kills
        &&& self.total_wins == o.total_wins
        &&& self.total_opened_chests == o.total_opened_chests
        &&& self.total_segfaults == o.total_segfaults
    }

    pub fn copy(&self) -> (r: Player)
        ensures
            r.same(*self),
    {
        let mut inventory: Vec<InventoryItem> = Vec::new();
        let mut i: usize = 0;
        while i < self.inventory.len()
            invariant
                0 <= i <= self.inventory@.len(),
                inventory@ == self.inventory@.take(i as int),
            decreases self.inventory@.len() - i,
        {
            inventory.push(self.inventory[i].clone());
            assert(self.inventory@.take(i as int + 1) =~= self.inventory@.take(i as int).push(self.inventory@[i as int]));
            i = i + 1;
        }
        assert(self.inventory@.take(self.inventory@.len() as int) =~= self.inventory@);
        let action = match &self.action {
            Some(a) => Some(a.clone()),
            None => None,
        };
        Player {
            id: self.id.clone(),
            name: self.name.clone(),
            score: self.score,
            hp: self.hp,
            shield: self.shield,
            position: self.position,
            last_position: self.last_position,
            inventory,
            remaining_haste_ticks: self.remaining_haste_ticks,
            remaining_damage_ticks: self.remaining_damage_ticks,
            action,
            alive_time: self.alive_time,
            total_kills: self.total_kills,
            total_wins: self.total_wins,
            total_opened_chests: self.total_opened_chests,
            total_segfaults: self.total_segfaults,
        }
    }

    /// A fresh player at the origin with the configured health and loadout.
    pub fn new(team: PlayerId, name: String, config: &WorldGenConfig) -> (r: Player)
        requires
            config.wf(),
        ensures
            r.wf(),
            r.id == team,
            r.name == name,
            r.score == 0,
            r.hp == config.player_health,
            r.shield == 0,
            r.position == (Position { x: 0, y: 0 }),
            r.last_position is None,
            r.inventory@ == loadout(config.player_items@),
            r.remaining_haste_ticks == 0,
            r.remaining_damage_ticks == 0,
            r.action is None,
            r.alive_time == 0,
            r.total_kills == 0,
            r.total_wins == 0,
            r.total_opened_chests == 0,
            r.total_segfaults == 0,
    {
        let inventory = make_loadout(&config.player_items);
        Player {
            id: team,
            name,
            score: 0,
            hp: config.player_health,
            shield: 0,
            position: Position::new(0, 0),
            last_position: None,
            inventory,
            remaining_haste_ticks: 0,
            remaining_damage_ticks: 0,
            action: None,
            alive_time: 0,
            total_kills: 0,
            total_wins: 0,
            total_opened_chests: 0,
            total_segfaults: 0,
        }
    }
}

impl Player {
    /// Puts the player back on the map for a new round, keeping its identity and totals.
    pub fn respawn(&mut self, config: &WorldGenConfig, position: Position)
        requires
            config.wf(),
            roomy(position),
        ensures
            final(self).wf(),
            final(self).hp == config.player_health,
            final(self).shield == 0,
            final(self).position == position,
            final(self).last_position is None,
            final(self).inventory@ == loadout(config.player_items@),
            final(self).remaining_haste_ticks == 0,
            final(self).remaining_damage_ticks == 0,
            final(self).action is None,
            final(self).alive_time == 0,
            final(self).id == old(self).id,
            final(self).name == old(self).name,
            final(self).score == old(self).score,
            final(self).total_kills == old(self).total_kills,
            final(self).total_wins == old(self).total_wins,
            final(self).total_opened_chests == old(self).total_opened_chests,
            final(self).total_segfaults == old(self).total_segfaults,
    {
        self.hp = config.player_health;
        self.shield = 0;
        self.position = position;
        self.last_position = None;
        self.inventory = make_loadout(&config.player_items);
        self.remaining_haste_ticks = 0;
        self.remaining_damage_ticks = 0;
        self.action = None;
        self.alive_time = 0;
    }

    pub fn rename(&mut self, name: String)
        ensures
            *final(self) == (Player { name, ..*old(self) }),
    {
        self.name = name;
    }

    pub fn id(&self) -> (r: &PlayerId)
        ensures
            *r == self.id,
    {
        &self.id
    }

    pub fn name(&self) -> (r: &String)
        ensures
            *r == self.name,
    {
        &self.name
    }

    pub fn score(&self) -> (r: i32)
        ensures
            r == self.score,
    {
        self.score
    }

    pub fn total_kills(&self) -> (r: u32)
        ensures
            r == self.total_kills,
    {
        self.total_kills
    }

    pub fn total_wins(&self) -> (r: u32)
        ensures
            r == self.total_wins,
    {
        self.total_wins
    }

    pub fn total_chests(&self) -> (r: u32)
        ensures
            r == self.total_opened_chests,
    {
        self.total_opened_chests
    }

    pub fn total_segfaults(&self) -> (r: u32)
        ensures
            r == self.total_segfaults,
    {
        self.total_segfaults
    }

    pub fn position(&self) -> (r: &Position)
        ensures
            *r == self.position,
    {
        &self.position
    }

    /// Takes the whole inventory out, leaving it empty.
    pub fn steal_inventory(&mut self) -> (r: Vec<InventoryItem>)
        ensures
            r@ == old(self).inventory@,
            final(self).inventory@.len() == 0,
            final(self).same_but_inventory(*old(self)),
    {
        let mut taken: Vec<InventoryItem> = Vec::new();
        core::mem::swap(&mut taken, &mut self.inventory);
        taken
    }

    pub fn is_alive(&self) -> (r: bool)
        ensures
            r == self.alive(),
    {
        self.hp > 0
    }

    /// Damage scaled by the damage buff while it lasts.
    pub fn get_multiplied_damage(&self, damage: u32, multiplier_percent: u32) -> (r: u32)
        ensures
            r == (if self.remaining_damage_ticks > 0 { scaled(damage, multiplier_percent) } else { damage }),
    {
        if self.remaining_damage_ticks > 0 {
            proof {
                assert(damage * multiplier_percent <= u32::MAX * u32::MAX) by (nonlinear_arith)
                    requires damage <= u32::MAX, multiplier_percent <= u32::MAX;
            }
            let v: u64 = damage as u64 * multiplier_percent as u64 / 100;
            if v > u32::MAX as u64 {
                u32::MAX
            } else {
                v as u32
            }
        } else {
            damage
        }
    }

    /// Index of the first stack holding the same item as `item`.
    pub fn find_stack(&self, item: &InventoryItem) -> (r: Option<usize>)
        ensures
            match r {
                Some(i) => i == first_stack(self.inventory@, *item) && i < self.inventory@.len(),
                None => first_stack(self.inventory@, *item) == -1,
            },
    {
        let mut i: usize = 0;
        while i < self.inventory.len()
            invariant
                0 <= i <= self.inventory@.len(),
                forall|j: int| 0 <= j < i ==> !same_stack(#[trigger] self.inventory@[j], *item),
            decreases self.inventory@.len() - i,
        {
            if self.inventory[i].name == item.name && self.inventory[i].data == item.data {
                proof {
                    lemma_first_stack(self.inventory@, *item, i as int);
                }
                return Some(i);
            }
            i = i + 1;
        }
        proof {
            lemma_first_stack(self.inventory@, *item, i as int);
        }
        None
    }

    /// Adds stacks to the inventory, each joining the first stack of the same item or
    /// standing at the end.
    pub fn add_to_inventory(&mut self, items: Vec<InventoryItem>)
        requires
            old(self).wf(),
            stacks_wf(items@),
        ensures
            final(self).wf(),
            final(self).inventory@ == merge_all(old(self).inventory@, items@),
            final(self).same_but_inventory(*old(self)),
    {
        let mut i: usize = 0;
        while i < items.len()
            invariant
                0 <= i <= items@.len(),
                stacks_wf(items@),
                self.wf(),
                self.same_but_inventory(*old(self)),
                self.inventory@ == merge_all(old(self).inventory@, items@.take(i as int)),
            decreases items@.len() - i,
        {
            let item = &items[i];
            let ghost before = self.inventory@;
            match self.find_stack(item) {
                Some(k) => {
                    let mut stack = self.inventory.remove(k);
                    stack.pick_up(&item.quantity);
                    self.inventory.insert(k, stack);
                    assert(self.inventory@ =~= before.update(k as int, picked_up(before[k as int], item.quantity)));
                },
                None => {
                    self.inventory.push(item.clone());
                },
            }
            assert(items@.take(i as int + 1).drop_last() =~= items@.take(i as int));
            i = i + 1;
        }
        assert(items@.take(items@.len() as int) =~= items@);
    }

    pub fn set_action(&mut self, action: Action)
        ensures
            *final(self) == (Player { action: Some(action), ..*old(self) }),
    {
        self.action = Some(action);
    }

    /// Adds to the score, held within the range of `i32`.
    pub fn earn_score(&mut self, score: i32)
        ensures
            *final(self) == (Player { score: add_score(old(self).score, score as int), ..*old(self) }),
    {
        self.score = plus_score(self.score, score as i64);
    }

    pub fn add_kill(&mut self)
        ensures
            *final(self) == (Player { total_kills: add_u32(old(self).total_kills, 1), ..*old(self) }),
    {
        self.total_kills = self.total_kills.saturating_add(1);
    }

    pub fn add_win(&mut self)
        ensures
            *final(self) == (Player { total_wins: add_u32(old(self).total_wins, 1), ..*old(self) }),
    {
        self.total_wins = self.total_wins.saturating_add(1);
    }

    /// Damage goes through the shield first; a player that dies from it gains
    /// `death_multiplier_percent` hundredths of a point, rounded down, for each player
    /// that was already dead.
    pub fn take_damage(&mut self, damage: u32, dead_count: u32, death_multiplier_percent: i32)
        ensures
            !old(self).alive() ==> *final(self) == *old(self),
            old(self).alive() ==> {
                let hp = sub_u32(old(self).hp, sub_u32(damage, old(self).shield as int) as int);
                &&& final(self).hp == hp
                &&& final(self).shield == sub_u32(old(self).shield, damage as int)
                &&& final(self).score == (if hp == 0 {
                    add_score(old(self).score, death_bonus(death_multiplier_percent, dead_count))
                } else {
                    old(self).score
                })
                &&& *final(self) == (Player { hp: final(self).hp, shield: final(self).shield, score: final(self).score, ..*old(self) })
            },
    {
        if self.is_alive() {
            self.hp = self.hp.saturating_sub(damage.saturating_sub(self.shield));
            self.shield = self.shield.saturating_sub(damage);
            if !self.is_alive() {
                proof {
                    assert(i32::MIN * u32::MAX <= death_multiplier_percent * dead_count <= i32::MAX * u32::MAX) by (nonlinear_arith)
                        requires i32::MIN <= death_multiplier_percent <= i32::MAX, 0 <= dead_count <= u32::MAX;
                }
                let v: i64 = death_multiplier_percent as i64 * dead_count as i64;
                let bonus: i64 = if v >= 0 {
                    v / 100
                } else {
                    -((-v + 99) / 100)
                };
                self.score = plus_score(self.score, bonus);
            }
        }
    }

    /// A move to a neighbouring cell (or the same one) that is passable; otherwise nothing.
    pub fn try_move(&mut self, map: &GameMap, position: Position)
        requires
            map.wf(),
            old(self).wf(),
        ensures
            final(self).wf(),
            move_rel(*old(self), *final(self), *map, position),
    {
        if self.position.is_inside(&position, 1) && map.player_can_move_to(&position) {
            let old_position = self.position;
            self.position = position;
            if self.last_position.is_none() {
                self.last_position = Some(old_position);
            }
        }
    }

    /// Steps in a direction, skipping over any run of walls; the move is made when the
    /// cell reached is passable.
    pub fn try_phase(&mut self, map: &GameMap, direction: CardinalDirection)
        requires
            map.wf(),
            old(self).wf(),
        ensures
            final(self).wf(),
            phase_rel(*old(self), *final(self), *map, direction),
            final(self).id == old(self).id,
            final(self).name == old(self).name,
            final(self).action == old(self).action,
            final(self).alive_time == old(self).alive_time,
    {
        let d = direction.to_direction();
        let ghost start = self.position;
        proof {
            lemma_ray(start, d, 0);
            lemma_ray(start, d, 1);
        }
        let mut position = self.position.with_offset(d);
        let ghost mut k: int = 1;
        while map.has_wall_at(&position)
            invariant
                map.wf(),
                roomy(start),
                k >= 1,
                position.x == start.x + k * d.dx(),
                position.y == start.y + k * d.dy(),
                d == direction.spec_to_direction(),
                forall|j: int| 1 <= j < k ==> map.wall_at(#[trigger] start.ray(d, j)),
            decreases (match d {
                Direction::Up => position.y + 1,
                Direction::Down => map.height - position.y,
                Direction::Left => position.x + 1,
                _ => map.width - position.x,
            }),
        {
            proof {
                let i = choose|i: int| 0 <= i < map.objects@.len() && (#[trigger] map.objects@[i]).is_wall_at(position);
                assert(map.in_bounds(map.objects@[i].pos()));
                lemma_ray(start, d, k);
            }
            position = position.with_offset(d);
            proof {
                k = k + 1;
            }
        }
        assert(position == start.ray(d, k));
        assert(phase_stop(*map, start, d, k));
        if map.player_can_move_to(&position) {
            let old_position = self.position;
            self.position = position;
            if self.last_position.is_none() {
                self.last_position = Some(old_position);
            }
        }
    }
}

/// A stack after one use.
pub open spec fn spent(s: InventoryItem) -> InventoryItem {
    InventoryItem {
        remaining_ticks: if s.cooldown < u32::MAX { (s.cooldown + 1) as u32 } else { u32::MAX },
        quantity: match s.quantity {
            ItemQuantity::Infinite => ItemQuantity::Infinite,
            ItemQuantity::Finite(n) => ItemQuantity::Finite(if n > 0 { (n - 1) as u32 } else { 0 }),
        },
        ..s
    }
}

/// A stack one tick later.
pub open spec fn cooled(s: InventoryItem) -> InventoryItem {
    InventoryItem { remaining_ticks: if s.remaining_ticks > 0 { (s.remaining_ticks - 1) as u32 } else { 0 }, ..s }
}

/// The inventory at the end of a tick: empty stacks dropped, cooldowns running.
pub open spec fn settled(inv: Seq<InventoryItem>) -> Seq<InventoryItem> {
    inv.filter_map(|s: InventoryItem| if has_stock(s.quantity) { Some(cooled(s)) } else { None })
}

/// The projectiles launched at `shots` that start inside the map.
pub open spec fn launched(
    owner: PlayerId,
    name: String,
    shots: Seq<(Position, Direction)>,
    map: GameMap,
    lifetime: u32,
    speed: u32,
    damage: u32,
) -> Seq<Projectile> {
    shots.filter_map(
        |s: (Position, Direction)|
            if map.in_bounds(s.0) {
                Some(
                    Projectile {
                        owner,
                        name,
                        position: s.0,
                        direction: s.1,
                        remaining_ticks: lifetime,
                        speed,
                        damage,
                    },
                )
            } else {
                None
            },
    )
}

/// The object that a placed item builds at `p`.
pub open spec fn built(owner: PlayerId, name: String, object: ItemPlacedObject, p: Position, damage: u32) -> Object {
    match object {
        ItemPlacedObject::Wall => Object::Wall(WallObject { position: p, hp: WALL_HP }),
        ItemPlacedObject::Trap { .. } => Object::Trap(
            TrapObject { owner, name, position: p, damage, active: true },
        ),
    }
}

/// The objects that a placed item builds over `cells`: only inside the map and
/// where no wall stands.
pub open spec fn placed(
    owner: PlayerId,
    name: String,
    cells: Seq<Position>,
    map: GameMap,
    object: ItemPlacedObject,
    damage: u32,
) -> Seq<Object> {
    cells.filter_map(
        |p: Position|
            if map.in_bounds(p) && !map.wall_at(p) {
                Some(built(owner, name, object, p, damage))
            } else {
                None
            },
    )
}

/// What using the first usable stack named `name` asks of the world, for a player `p`
/// on `map`: projectiles to launch, objects to build or a nuke to set off.
pub open spec fn item_result(
    p: Player,
    map: GameMap,
    name: String,
    data: ActionUseItem,
    config: Config,
    r: PlayerTickResult,
) -> bool {
    let i = first_usable(p.inventory@, name@, p.remaining_haste_ticks > 0);
    let it = p.inventory@[i];
    let pct = config.damage_multiplier_percent;
    let mult = |d: u32| if p.remaining_damage_ticks > 0 { scaled(d, pct) } else { d };
    if i < 0 {
        r is Nothing
    } else {
        match (data, it.data) {
            (ActionUseItem::Projectile { direction }, ItemData::Projectile { tick_lifetime, damage, speed, pattern }) => {
                r is Projectile && r->Projectile_0@ == launched(
                    p.id,
                    name,
                    pattern.launches(p.position, direction),
                    map,
                    tick_lifetime,
                    speed,
                    mult(damage),
                )
            },
            (ActionUseItem::Placed { position, place_rectangle_vertical }, ItemData::Placed { range, object, pattern }) => {
                if chebyshev(position, p.position) <= range {
                    &&& r is Placed
                    &&& roomy(position) ==> r->Placed_0@ == placed(
                        p.id,
                        name,
                        pattern.cells(position, place_rectangle_vertical),
                        map,
                        object,
                        mult(trap_damage(object)),
                    )
                    &&& !roomy(position) ==> r->Placed_0@.len() == 0
                } else {
                    r is Nothing
                }
            },
            (ActionUseItem::Nuke, ItemData::Nuke { damage }) => r == (PlayerTickResult::Nuke { item_name: name, damage }),
            _ => r is Nothing,
        }
    }
}

/// A player moved to `to`, remembering where it stood if this is its first move.
pub open spec fn moved_to(p: Player, to: Position) -> Player {
    Player {
        position: to,
        last_position: if p.last_position is None { Some(p.position) } else { p.last_position },
        ..p
    }
}

/// Player `q` is `p` after trying to move to `target` on `map`.
pub open spec fn move_rel(p: Player, q: Player, map: GameMap, target: Position) -> bool {
    if chebyshev(p.position, target) <= 1 && map.passable(target) {
        q == moved_to(p, target)
    } else {
        q == p
    }
}

/// `from.ray(d, k)` is the first cell past `from` in direction `d` with no wall.
pub open spec fn phase_stop(map: GameMap, from: Position, d: Direction, k: int) -> bool {
    &&& k >= 1
    &&& !map.wall_at(from.ray(d, k))
    &&& forall|j: int| 1 <= j < k ==> map.wall_at(#[trigger] from.ray(d, j))
}

/// Player `q` is `p` after trying to phase in `dir` on `map`.
pub open spec fn phase_rel(p: Player, q: Player, map: GameMap, dir: CardinalDirection) -> bool {
    exists|k: int| #[trigger] phase_stop(map, p.position, dir.spec_to_direction(), k) && {
        let target = p.position.ray(dir.spec_to_direction(), k);
        if map.passable(target) { q == moved_to(p, target) } else { q == p }
    }
}

/// Player `q` and map `m2` are `p` and `m` after `p` tries to open the chest at `pos`.
pub open spec fn chest_rel(p: Player, q: Player, m: GameMap, m2: GameMap, pos: Position, config: Config) -> bool {
    &&& m.no_chest_at(pos) ==> q == p && m2 == m
    &&& forall|i: int| #[trigger] m.first_chest_is(pos, i) ==> {
        let c = m.objects@[i]->Chest_0;
        if crate::entities::holds_id(c.opened_by@, p.id) {
            q == p && m2 == m
        } else {
            &&& q.inventory@ == merge_all(p.inventory@, loadout(c.items@))
            &&& q == (Player {
                inventory: q.inventory,
                total_opened_chests: add_u32(p.total_opened_chests, 1),
                score: add_score(p.score, config.score.loot_chest as int),
                ..p
            })
            &&& m2.opened_chest(m, i, p.id)
        }
    }
}

/// Player `q` is `p` after using the first usable stack named `name` as `data` asks,
/// on `map`; `r` is what that asks of the world.
pub open spec fn use_rel(p: Player, q: Player, map: GameMap, name: String, data: ActionUseItem, config: Config, r: PlayerTickResult) -> bool {
    let i = first_usable(p.inventory@, name@, p.remaining_haste_ticks > 0);
    let it = p.inventory@[i];
    let used = p.inventory@.update(i, spent(it));
    let spent_only = q.inventory@ == used && q == (Player { inventory: q.inventory, ..p });
    &&& item_result(p, map, name, data, config, r)
    &&& if i < 0 {
        q == p
    } else {
        match (data, it.data) {
            (ActionUseItem::Buff, ItemData::Buff { effect, power }) => {
                &&& q.inventory@ == used
                &&& q == (Player {
                    inventory: q.inventory,
                    hp: match effect {
                        BuffEffect::Heal | BuffEffect::HealAndShield => capped(p.hp, power),
                        _ => p.hp,
                    },
                    shield: match effect {
                        BuffEffect::Shield | BuffEffect::HealAndShield => capped(p.shield, power),
                        _ => p.shield,
                    },
                    remaining_haste_ticks: match effect {
                        BuffEffect::Haste => add_u32(p.remaining_haste_ticks, power + 1),
                        _ => p.remaining_haste_ticks,
                    },
                    remaining_damage_ticks: match effect {
                        BuffEffect::Damage => add_u32(p.remaining_damage_ticks, power + 1),
                        _ => p.remaining_damage_ticks,
                    },
                    score: match effect {
                        BuffEffect::Score => add_score(add_score(p.score, power as int), config.score.use_buff as int),
                        _ => add_score(p.score, config.score.use_buff as int),
                    },
                    ..p
                })
            },
            (ActionUseItem::Projectile { .. }, ItemData::Projectile { .. }) => spent_only,
            (ActionUseItem::Placed { position, .. }, ItemData::Placed { range, .. }) => if chebyshev(position, p.position) <= range {
                spent_only
            } else {
                q == p
            },
            (ActionUseItem::Nuke, ItemData::Nuke { .. }) => spent_only,
            _ => q == p,
        }
    }
}

/// Player `q` is `p` at the end of a tick.
pub open spec fn settle_rel(p: Player, q: Player) -> bool {
    &&& q.inventory@ == settled(p.inventory@)
    &&& q == (Player {
        inventory: q.inventory,
        remaining_haste_ticks: sub_u32(p.remaining_haste_ticks, 1),
        remaining_damage_ticks: sub_u32(p.remaining_damage_ticks, 1),
        ..p
    })
}

/// A living player at the start of its turn: one tick older, a point richer every
/// tenth tick, its pending action taken.
pub open spec fn start_of_turn(p: Player) -> Player {
    let t = add_u32(p.alive_time, 1);
    Player { alive_time: t, score: if t % 10 == 0 { add_score(p.score, 1) } else { p.score }, action: None, ..p }
}

/// Player `q` and map `m2` are `p` and `m` after `p` carries out `action`, which asks `r`
/// of the world.
pub open spec fn turn_rel(
    p: Player,
    q: Player,
    m: GameMap,
    m2: GameMap,
    action: Option<Action>,
    config: Config,
    r: PlayerTickResult,
) -> bool {
    match action {
        Some(Action::Move { position }) => r is Nothing && m2 == m && move_rel(p, q, m, position),
        Some(Action::Phase { direction }) => r is Nothing && m2 == m && phase_rel(p, q, m, direction),
        Some(Action::OpenChest { position }) => r is Nothing && chest_rel(p, q, m, m2, position, config),
        Some(Action::UseItem { name, data }) => m2 == m && use_rel(p, q, m, name, data, config, r),
        Some(Action::SegFault) => r is SegFault && m2 == m && q == (Player {
            hp: 0,
            shield: 0,
            score: add_score(p.score, config.score.get_killed_by_yourself as int),
            total_segfaults: add_u32(p.total_segfaults, 1),
            ..p
        }),
        Some(Action::Skip) | None => r is Nothing && m2 == m && q == p,
    }
}

/// Player `q` and map `m2` are `p` and `m` after one tick of `p`, which asks `r` of
/// the world: a dead player does nothing, a living one carries out its pending action.
pub open spec fn player_tick_rel(p: Player, q: Player, m: GameMap, m2: GameMap, config: Config, r: PlayerTickResult) -> bool {
    if !p.alive() {
        r is Nothing && q == p && m2 == m
    } else {
        &&& q.action is None
        &&& exists|mid: Player| #[trigger] turn_rel(start_of_turn(p), mid, m, m2, p.action, config, r) && settle_rel(mid, q)
    }
}

/// Damage of a trap item, before any buff.
pub open spec fn trap_damage(object: ItemPlacedObject) -> u32 {
    match object {
        ItemPlacedObject::Trap { damage } => damage,
        ItemPlacedObject::Wall => 0,
    }
}

impl Player {
    /// Index of the first stack named `name` that can be used now.
    pub fn find_usable(&self, name: &String, ignore_cooldowns: bool) -> (r: Option<usize>)
        ensures
            match r {
                Some(i) => i == first_usable(self.inventory@, name@, ignore_cooldowns) && i < self.inventory@.len(),
                None => first_usable(self.inventory@, name@, ignore_cooldowns) == -1,
            },
    {
        let mut i: usize = 0;
        while i < self.inventory.len()
            invariant
                0 <= i <= self.inventory@.len(),
                forall|j: int|
                    0 <= j < i ==> !((#[trigger] self.inventory@[j]).spec_usable(ignore_cooldowns) && self.inventory@[j].name@
                        == name@),
            decreases self.inventory@.len() - i,
        {
            if self.inventory[i].is_usable(ignore_cooldowns) && self.inventory[i].name == *name {
                proof {
                    lemma_first_usable(self.inventory@, name@, ignore_cooldowns, i as int);
                }
                return Some(i);
            }
            i = i + 1;
        }
        proof {
            lemma_first_usable(self.inventory@, name@, ignore_cooldowns, i as int);
        }
        None
    }

    /// Spends one use of stack `i`.
    fn spend(&mut self, i: usize)
        requires
            i < old(self).inventory@.len(),
            old(self).wf(),
        ensures
            final(self).wf(),
            final(self).inventory@ == old(self).inventory@.update(i as int, spent(old(self).inventory@[i as int])),
            final(self).same_but_inventory(*old(self)),
    {
        let mut stack = self.inventory.remove(i);
        stack.use_one();
        self.inventory.insert(i, stack);
        assert(self.inventory@ =~= old(self).inventory@.update(i as int, spent(old(self).inventory@[i as int])));
    }

    /// Builds the projectiles of a launch that start inside the map.
    fn launch(
        &self,
        map: &GameMap,
        name: &String,
        shots: Vec<(Position, Direction)>,
        lifetime: u32,
        speed: u32,
        damage: u32,
    ) -> (r: Vec<Projectile>)
        requires
            speed <= MAX_REACH,
            map.wf(),
        ensures
            r@ == launched(self.id, *name, shots@, *map, lifetime, speed, damage),
            forall|i: int| 0 <= i < r@.len() ==> map.in_bounds((#[trigger] r@[i]).position) && r@[i].speed <= MAX_REACH,
    {
        let mut r: Vec<Projectile> = Vec::new();
        let mut i: usize = 0;
        while i < shots.len()
            invariant
                0 <= i <= shots@.len(),
                speed <= MAX_REACH,
                r@ == launched(self.id, *name, shots@.take(i as int), *map, lifetime, speed, damage),
                forall|k: int| 0 <= k < r@.len() ==> map.in_bounds((#[trigger] r@[k]).position) && r@[k].speed <= MAX_REACH,
            decreases shots@.len() - i,
        {
            let (p, d) = shots[i];
            assert(shots@.take(i as int + 1).drop_last() =~= shots@.take(i as int));
            if map.is_within_bounds(&p) {
                r.push(Projectile::new(self.id.clone(), name.clone(), p, d, lifetime, speed, damage));
            }
            i = i + 1;
        }
        assert(shots@.take(shots@.len() as int) =~= shots@);
        r
    }

    /// Builds the objects of a placement inside the map and off walls.
    fn build(&self, map: &GameMap, name: &String, cells: Vec<Position>, object: ItemPlacedObject, damage: u32) -> (r: Vec<
        Object,
    >)
        requires
            map.wf(),
        ensures
            r@ == placed(self.id, *name, cells@, *map, object, damage),
            forall|i: int| 0 <= i < r@.len() ==> map.in_bounds((#[trigger] r@[i]).pos()) && !(r@[i] is Chest),
    {
        let mut r: Vec<Object> = Vec::new();
        let mut i: usize = 0;
        while i < cells.len()
            invariant
                0 <= i <= cells@.len(),
                r@ == placed(self.id, *name, cells@.take(i as int), *map, object, damage),
                forall|k: int| 0 <= k < r@.len() ==> map.in_bounds((#[trigger] r@[k]).pos()) && !(r@[k] is Chest),
            decreases cells@.len() - i,
        {
            let p = cells[i];
            assert(cells@.take(i as int + 1).drop_last() =~= cells@.take(i as int));
            if map.is_within_bounds(&p) && !map.has_wall_at(&p) {
                let o = match object {
                    ItemPlacedObject::Wall => Object::new_wall(p),
                    ItemPlacedObject::Trap { .. } => Object::new_trap(self.id.clone(), p, name.clone(), damage),
                };
                r.push(o);
            }
            i = i + 1;
        }
        assert(cells@.take(cells@.len() as int) =~= cells@);
        r
    }

    /// Uses the first usable stack named `name`, as the action's payload asks.
    pub fn use_item(&mut self, map: &GameMap, name: &String, data: ActionUseItem, config: &Config) -> (r: PlayerTickResult)
        requires
            old(self).wf(),
            map.wf(),
        ensures
            final(self).wf(),
            use_rel(*old(self), *final(self), *map, *name, data, *config, r),
            final(self).id == old(self).id,
            final(self).name == old(self).name,
            final(self).action == old(self).action,
            final(self).alive_time == old(self).alive_time,
            item_result(*old(self), *map, *name, data, *config, r),
            r is Projectile ==> forall|i: int|
                0 <= i < r->Projectile_0@.len() ==> map.in_bounds((#[trigger] r->Projectile_0@[i]).position)
                    && r->Projectile_0@[i].speed <= MAX_REACH,
            r is Placed ==> forall|i: int|
                0 <= i < r->Placed_0@.len() ==> map.in_bounds((#[trigger] r->Placed_0@[i]).pos()) && !(
                r->Placed_0@[i] is Chest),
    {
        let ignore_cooldowns = self.remaining_haste_ticks > 0;
        let found = self.find_usable(name, ignore_cooldowns);
        let i = match found {
            None => {
                return PlayerTickResult::Nothing;
            },
            Some(i) => i,
        };
        let pct = config.damage_multiplier_percent;
        match (data, self.inventory[i].data) {
            (ActionUseItem::Buff, ItemData::Buff { effect, power }) => {
                self.spend(i);
                match effect {
                    BuffEffect::Heal => {
                        self.hp = cap_stat(self.hp, power);
                    },
                    BuffEffect::Haste => {
                        self.remaining_haste_ticks = self.remaining_haste_ticks.saturating_add(power.saturating_add(1));
                    },
                    BuffEffect::Score => {
                        self.score = plus_score(self.score, power as i64);
                    },
                    BuffEffect::Shield => {
                        self.shield = cap_stat(self.shield, power);
                    },
                    BuffEffect::Damage => {
                        self.remaining_damage_ticks = self.remaining_damage_ticks.saturating_add(power.saturating_add(1));
                    },
                    BuffEffect::HealAndShield => {
                        self.hp = cap_stat(self.hp, power);
                        self.shield = cap_stat(self.shield, power);
                    },
                }
                self.earn_score(config.score.use_buff);
                PlayerTickResult::Nothing
            },
            (ActionUseItem::Projectile { direction }, ItemData::Projectile { tick_lifetime, damage, speed, pattern }) => {
                proof {
                    assert(self.inventory@[i as int].data.wf());
                }
                self.spend(i);
                let shots = pattern.get_positions(&self.position, direction);
                let dmg = self.get_multiplied_damage(damage, pct);
                PlayerTickResult::Projectile(self.launch(map, name, shots, tick_lifetime, speed, dmg))
            },
            (
                ActionUseItem::Placed { position, place_rectangle_vertical },
                ItemData::Placed { range, object, pattern },
            ) => {
                if position.is_inside(&self.position, range) {
                    proof {
                        assert(self.inventory@[i as int].data.wf());
                    }
                    self.spend(i);
                    if !is_roomy(&position) {
                        return PlayerTickResult::Placed(Vec::new());
                    }
                    let cells = pattern.get_positions(&position, place_rectangle_vertical);
                    let base = match object {
                        ItemPlacedObject::Trap { damage } => damage,
                        ItemPlacedObject::Wall => 0,
                    };
                    let dmg = self.get_multiplied_damage(base, pct);
                    PlayerTickResult::Placed(self.build(map, name, cells, object, dmg))
                } else {
                    PlayerTickResult::Nothing
                }
            },
            (ActionUseItem::Nuke, ItemData::Nuke { damage }) => {
                self.spend(i);
                PlayerTickResult::Nuke { item_name: name.clone(), damage }
            },
            _ => PlayerTickResult::Nothing,
        }
    }
}

impl Player {
    /// Loots the first chest at `position` if this team has not opened it yet.
    pub fn open_chest_at(&mut self, map: &mut GameMap, position: Position, config: &Config)
        requires
            old(self).wf(),
            old(map).wf(),
        ensures
            final(self).wf(),
            final(map).wf(),
            final(map).same_but_openers(*old(map)),
            forall|p: Position| final(map).wall_at(p) == old(map).wall_at(p),
            chest_rel(*old(self), *final(self), *old(map), *final(map), position, *config),
            final(self).id == old(self).id,
            final(self).name == old(self).name,
            final(self).action == old(self).action,
            final(self).alive_time == old(self).alive_time,
    {
        let loot = map.open_chest(&self.id, &position);
        if let Some(items) = loot {
            self.total_opened_chests = self.total_opened_chests.saturating_add(1);
            let stacks = make_loadout(&items);
            proof {
                assert forall|k: int| 0 <= k < stacks@.len() implies (#[trigger] stacks@[k]).data.wf() by {
                    assert(items@[k].wf());
                }
            }
            self.add_to_inventory(stacks);
            self.earn_score(config.score.loot_chest);
        }
    }

    /// End of a tick: status counters run down, empty stacks go, cooldowns run.
    pub fn settle(&mut self)
        requires
            old(self).wf(),
        ensures
            final(self).wf(),
            settle_rel(*old(self), *final(self)),
    {
        self.remaining_haste_ticks = self.remaining_haste_ticks.saturating_sub(1);
        self.remaining_damage_ticks = self.remaining_damage_ticks.saturating_sub(1);
        let mut kept: Vec<InventoryItem> = Vec::new();
        let mut taken: Vec<InventoryItem> = Vec::new();
        core::mem::swap(&mut taken, &mut self.inventory);
        let ghost inv = taken@;
        let mut i: usize = 0;
        while i < taken.len()
            invariant
                0 <= i <= taken@.len(),
                inv == taken@,
                inv == old(self).inventory@,
                stacks_wf(inv),
                kept@ == settled(inv.take(i as int)),
                stacks_wf(kept@),
            decreases taken@.len() - i,
        {
            assert(inv.take(i as int + 1).drop_last() =~= inv.take(i as int));
            let keep = match taken[i].quantity {
                ItemQuantity::Infinite => true,
                ItemQuantity::Finite(n) => n > 0,
            };
            if keep {
                let mut st = taken[i].clone();
                st.tick();
                kept.push(st);
            }
            i = i + 1;
        }
        assert(inv.take(inv.len() as int) =~= inv);
        self.inventory = kept;
    }

    /// One tick of this player: consumes its pending action and applies it.
    pub fn tick(&mut self, map: &mut GameMap, config: &Config) -> (r: PlayerTickResult)
        requires
            old(self).wf(),
            old(map).wf(),
        ensures
            final(self).wf(),
            final(map).wf(),
            final(map).same_but_openers(*old(map)),
            forall|p: Position| final(map).wall_at(p) == old(map).wall_at(p),
            final(self).id == old(self).id,
            final(self).name == old(self).name,
            !old(self).alive() ==> r is Nothing && *final(self) == *old(self) && *final(map) == *old(map),
            player_tick_rel(*old(self), *final(self), *old(map), *final(map), *config, r),
            r is Projectile ==> forall|i: int|
                0 <= i < r->Projectile_0@.len() ==> old(map).in_bounds((#[trigger] r->Projectile_0@[i]).position)
                    && r->Projectile_0@[i].speed <= MAX_REACH,
            r is Placed ==> forall|i: int|
                0 <= i < r->Placed_0@.len() ==> old(map).in_bounds((#[trigger] r->Placed_0@[i]).pos()) && !(
                r->Placed_0@[i] is Chest),
    {
        if !self.is_alive() {
            return PlayerTickResult::Nothing;
        }
        self.alive_time = self.alive_time.saturating_add(1);
        if self.alive_time % 10 == 0 {
            self.earn_score(1);
        }
        let mut pending: Option<Action> = None;
        core::mem::swap(&mut pending, &mut self.action);
        let ghost start = *self;
        let ghost map0 = *map;
        assert(start == start_of_turn(*old(self)));
        let result = match pending {
            None => PlayerTickResult::Nothing,
            Some(action) => match action {
                Action::Move { position } => {
                    self.try_move(map, position);
                    PlayerTickResult::Nothing
                },
                Action::Phase { direction } => {
                    self.try_phase(map, direction);
                    PlayerTickResult::Nothing
                },
                Action::OpenChest { position } => {
                    self.open_chest_at(map, position, config);
                    PlayerTickResult::Nothing
                },
                Action::UseItem { name, data } => self.use_item(map, &name, data, config),
                Action::SegFault => {
                    self.hp = 0;
                    self.shield = 0;
                    self.earn_score(config.score.get_killed_by_yourself);
                    self.total_segfaults = self.total_segfaults.saturating_add(1);
                    PlayerTickResult::SegFault
                },
                Action::Skip => PlayerTickResult::Nothing,
            },
        };
        let ghost mid = *self;
        assert(turn_rel(start, mid, map0, *map, old(self).action, *config, result));
        self.settle();
        result
    }
}

/// `a + b`, at most `MAX_STAT`.
pub fn cap_stat(a: u32, b: u32) -> (r: u32)
    ensures
        r == capped(a, b),
{
    let v: u64 = a as u64 + b as u64;
    if v > MAX_STAT as u64 {
        MAX_STAT
    } else {
        v as u32
    }
}

/// Whether any pattern can be laid around `p` without overflow.
pub fn is_roomy(p: &Position) -> (r: bool)
    ensures
        r == roomy(*p),
{
    let m: i64 = MAX_REACH as i64;
    (p.x as i64) > i32::MIN as i64 + m && (p.x as i64) < i32::MAX as i64 - m && (p.y as i64) > i32::MIN as i64 + m
        && (p.y as i64) < i32::MAX as i64 - m
}

} // verus!
