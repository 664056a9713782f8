//! Things that live on the map: objects, projectiles, inventory stacks and actions.
use vstd::prelude::*;
use crate::items::{Item, ItemData, ItemQuantity, MAX_REACH, roomy};
use crate::types::{CardinalDirection, Direction, PlayerId, Position, TickDuration};

verus! {

/// Hit points of a freshly built wall.
pub const WALL_HP: u32 = 100;

/// An object standing on a cell.
#[derive(Debug)]
pub enum Object {
    Chest(ChestObject),
    Wall(WallObject),
    Trap(TrapObject),
}

/// A chest: loot that each team may take once.
#[derive(Debug)]
pub struct ChestObject {
    pub position: Position,
    pub items: Vec<Item>,
    /// Teams that have opened the chest, each at most once.
    pub opened_by: Vec<PlayerId>,
}

#[derive(Debug, Clone, Copy, PartialEq, Eq, Structural)]
pub struct WallObject {
    pub position: Position,
    pub hp: u32,
}

#[derive(Debug)]
pub struct TrapObject {
    pub owner: PlayerId,
    pub name: String,
    pub position: Position,
    pub damage: u32,
    pub active: bool,
}

/// Copies a list of items element by element.
pub fn clone_items(v: &Vec<Item>) -> (r: Vec<Item>)
    ensures
        r@ == v@,
{
    let mut r: Vec<Item> = Vec::new();
    let mut i: usize = 0;
    while i < v.len()
        invariant
            0 <= i <= v@.len(),
            r@ == v@.take(i as int),
        decreases v@.len() - i,
    {
        r.push(v[i].clone());
        assert(v@.take(i as int + 1) =~= v@.take(i as int).push(v@[i as int]));
        i = i + 1;
    }
    assert(v@.take(v@.len() as int) =~= v@);
    r
}

/// Copies a list of team ids element by element.
pub fn clone_ids(v: &Vec<PlayerId>) -> (r: Vec<PlayerId>)
    ensures
        r@ == v@,
{
    let mut r: Vec<PlayerId> = Vec::new();
    let mut i: usize = 0;
    while i < v.len()
        invariant
            0 <= i <= v@.len(),
            r@ == v@.take(i as int),
        decreases v@.len() - i,
    {
        r.push(v[i].clone());
        assert(v@.take(i as int + 1) =~= v@.take(i as int).push(v@[i as int]));
        i = i + 1;
    }
    assert(v@.take(v@.len() as int) =~= v@);
    r
}

impl ChestObject {
    /// Equal position, loot and openers.
    pub open spec fn same(self, o: ChestObject) -> bool {
        self.position == o.position && self.items@ == o.items@ && self.opened_by@ == o.opened_by@
    }
}

impl Clone for ChestObject {
    fn clone(&self) -> (r: ChestObject)
        ensures
            r.same(*self),
    {
        ChestObject {
            position: self.position,
            items: clone_items(&self.items),
            opened_by: clone_ids(&self.opened_by),
        }
    }
}

impl Clone for TrapObject {
    fn clone(&self) -> (r: TrapObject)
        ensures
            r == *self,
    {
        TrapObject {
            owner: self.owner.clone(),
            name: self.name.clone(),
            position: self.position,
            damage: self.damage,
            active: self.active,
        }
    }
}

impl Clone for Object {
    fn clone(&self) -> (r: Object)
        ensures
            r.same(*self),
    {
        match self {
            Object::Chest(c) => Object::Chest(c.clone()),
            Object::Wall(w) => Object::Wall(*w),
            Object::Trap(t) => Object::Trap(t.clone()),
        }
    }
}

impl Object {
    /// The same object: equal fields, and equal contents for a chest.
    pub open spec fn same(self, o: Object) -> bool {
        match (self, o) {
            (Object::Chest(a), Object::Chest(b)) => a.same(b),
            (Object::Wall(a), Object::Wall(b)) => a == b,
            (Object::Trap(a), Object::Trap(b)) => a == b,
            _ => false,
        }
    }

    pub open spec fn pos(self) -> Position {
        match self {
            Object::Chest(c) => c.position,
            Object::Wall(w) => w.position,
            Object::Trap(t) => t.position,
        }
    }

    pub open spec fn is_wall_at(self, p: Position) -> bool {
        match self {
            Object::Wall(w) => w.position == p,
            _ => false,
        }
    }

    pub fn new_chest(position: Position, items: Vec<Item>) -> (r: Object)
        ensures
            r == Object::Chest(ChestObject { position, items, opened_by: r->Chest_0.opened_by }),
            r->Chest_0.opened_by@.len() == 0,
    {
        Object::Chest(ChestObject { position, items, opened_by: Vec::new() })
    }

    pub fn new_wall(position: Position) -> (r: Object)
        ensures
            r == Object::Wall(WallObject { position, hp: WALL_HP }),
    {
        Object::Wall(WallObject { position, hp: WALL_HP })
    }

    pub fn new_trap(owner: PlayerId, position: Position, name: String, damage: u32) -> (r: Object)
        ensures
            r == Object::Trap(TrapObject { owner, name, position, damage, active: true }),
    {
        Object::Trap(TrapObject { owner, name, position, damage, active: true })
    }

    pub fn get_wall(&self) -> (r: Option<&WallObject>)
        ensures
            r == (match *self {
                Object::Wall(w) => Some(&w),
                _ => None,
            }),
    {
        match self {
            Object::Wall(wall) => Some(wall),
            _ => None,
        }
    }

    pub fn get_chest_mut(&mut self) -> (r: Option<&mut ChestObject>)
        ensures
            match *old(self) {
                Object::Chest(c) => r is Some && *r->0 == c && *final(self) == Object::Chest(*final(r->0)),
                _ => r is None && *final(self) == *old(self),
            },
    {
        match self {
            Object::Chest(chest) => Some(chest),
            _ => None,
        }
    }

    pub fn get_trap_mut(&mut self) -> (r: Option<&mut TrapObject>)
        ensures
            match *old(self) {
                Object::Trap(t) => r is Some && *r->0 == t && *final(self) == Object::Trap(*final(r->0)),
                _ => r is None && *final(self) == *old(self),
            },
    {
        match self {
            Object::Trap(trap) => Some(trap),
            _ => None,
        }
    }

    pub fn get_wall_mut(&mut self) -> (r: Option<&mut WallObject>)
        ensures
            match *old(self) {
                Object::Wall(w) => r is Some && *r->0 == w && *final(self) == Object::Wall(*final(r->0)),
                _ => r is None && *final(self) == *old(self),
            },
    {
        match self {
            Object::Wall(wall) => Some(wall),
            _ => None,
        }
    }

    pub fn is_wall(&self) -> (r: bool)
        ensures
            r == self is Wall,
    {
        match self {
            Object::Wall(_) => true,
            _ => false,
        }
    }

    pub fn position(&self) -> (r: &Position)
        ensures
            *r == self.pos(),
    {
        match self {
            Object::Chest(chest) => &chest.position,
            Object::Wall(wall) => &wall.position,
            Object::Trap(trap) => &trap.position,
        }
    }
}

/// Whether `id` occurs in a list of team ids.
pub open spec fn holds_id(ids: Seq<PlayerId>, id: PlayerId) -> bool {
    exists|i: int| 0 <= i < ids.len() && ids[i]@ == id@
}

/// Openers and loot after team `id` opens a chest with these openers and items.
pub open spec fn open_result(opened: Seq<PlayerId>, items: Seq<Item>, id: PlayerId) -> (Seq<PlayerId>, Option<Seq<Item>>) {
    if holds_id(opened, id) {
        (opened, None)
    } else {
        (opened.push(id), Some(items))
    }
}

/// A team that opens the same chest twice gets its loot the first time only, and
/// the second opening changes nothing.
pub proof fn lemma_open_twice(opened: Seq<PlayerId>, items: Seq<Item>, id: PlayerId)
    ensures
        ({
            let (after_first, first) = open_result(opened, items, id);
            let (after_second, second) = open_result(after_first, items, id);
            &&& first is Some <==> !holds_id(opened, id)
            &&& first is Some ==> first->0 == items
            &&& second is None
            &&& after_second == after_first
        }),
{
    let (after_first, first) = open_result(opened, items, id);
    if !holds_id(opened, id) {
        assert(after_first[opened.len() as int]@ == id@);
    }
}

impl ChestObject {
    pub fn opened_by(&self, id: &PlayerId) -> (r: bool)
        ensures
            r == holds_id(self.opened_by@, *id),
    {
        let mut i: usize = 0;
        while i < self.opened_by.len()
            invariant
                0 <= i <= self.opened_by@.len(),
                forall|j: int| 0 <= j < i ==> self.opened_by@[j]@ != id@,
            decreases self.opened_by@.len() - i,
        {
            if self.opened_by[i] == *id {
                return true;
            }
            i = i + 1;
        }
        false
    }

    /// Gives the loot to a team that has not opened the chest yet, and records it.
    pub fn open(&mut self, id: &PlayerId) -> (r: Option<Vec<Item>>)
        ensures
            final(self).position == old(self).position,
            final(self).items == old(self).items,
            holds_id(final(self).opened_by@, *id),
            final(self).opened_by@ == open_result(old(self).opened_by@, old(self).items@, *id).0,
            r is Some <==> open_result(old(self).opened_by@, old(self).items@, *id).1 is Some,
            r is Some ==> r->0@ == open_result(old(self).opened_by@, old(self).items@, *id).1->0,
            holds_id(old(self).opened_by@, *id) ==> r is None && *final(self) == *old(self),
            !holds_id(old(self).opened_by@, *id) ==> r is Some && r->0@ == old(self).items@
                && final(self).opened_by@ == old(self).opened_by@.push(*id),
    {
        if self.opened_by(id) {
            None
        } else {
            self.opened_by.push(id.clone());
            assert(self.opened_by@[self.opened_by@.len() - 1]@ == id@);
            Some(clone_items(&self.items))
        }
    }
}

impl WallObject {
    pub fn take_damage(&mut self, damage: u32)
        ensures
            final(self).position == old(self).position,
            final(self).hp == (if old(self).hp >= damage { old(self).hp - damage } else { 0 }),
    {
        self.hp = self.hp.saturating_sub(damage);
    }
}

/// Along a ray, each coordinate moves by at most the number of steps.
pub proof fn lemma_ray(p: Position, d: Direction, k: int)
    requires
        0 <= k,
    ensures
        -k <= k * d.dx() <= k,
        -k <= k * d.dy() <= k,
        (k + 1) * d.dx() == k * d.dx() + d.dx(),
        (k + 1) * d.dy() == k * d.dy() + d.dy(),
{
    assert((k + 1) * d.dx() == k * d.dx() + d.dx()) by (nonlinear_arith);
    assert((k + 1) * d.dy() == k * d.dy() + d.dy()) by (nonlinear_arith);
    assert(-k <= k * d.dx() <= k) by (nonlinear_arith)
        requires -1 <= d.dx() <= 1, 0 <= k;
    assert(-k <= k * d.dy() <= k) by (nonlinear_arith)
        requires -1 <= d.dy() <= 1, 0 <= k;
}

/// A moving hazard.
#[derive(Debug)]
pub struct Projectile {
    pub owner: PlayerId,
    pub name: String,
    pub position: Position,
    pub direction: Direction,
    pub remaining_ticks: TickDuration,
    pub speed: u32,
    pub damage: u32,
}

impl Clone for Projectile {
    fn clone(&self) -> (r: Projectile)
        ensures
            r == *self,
    {
        Projectile {
            owner: self.owner.clone(),
            name: self.name.clone(),
            position: self.position,
            direction: self.direction,
            remaining_ticks: self.remaining_ticks,
            speed: self.speed,
            damage: self.damage,
        }
    }
}

impl Projectile {
    pub fn new(
        owner: PlayerId,
        name: String,
        position: Position,
        direction: Direction,
        remaining_ticks: TickDuration,
        speed: u32,
        damage: u32,
    ) -> (r: Projectile)
        ensures
            r == (Projectile { owner, name, position, direction, remaining_ticks, speed, damage }),
    {
        Projectile { owner, name, position, direction, remaining_ticks, speed, damage }
    }

    pub fn owner(&self) -> (r: &PlayerId)
        ensures
            *r == self.owner,
    {
        &self.owner
    }

    pub fn name(&self) -> (r: &String)
        ensures
            *r == self.name,
    {
        &self.name
    }

    pub fn damage(&self) -> (r: u32)
        ensures
            r == self.damage,
    {
        self.damage
    }

    pub fn position(&self) -> (r: &Position)
        ensures
            *r == self.position,
    {
        &self.position
    }

    pub fn should_delete(&self) -> (r: bool)
        ensures
            r == (self.remaining_ticks == 0),
    {
        self.remaining_ticks == 0
    }

    pub fn mark_for_removal(&mut self)
        ensures
            *final(self) == (Projectile { remaining_ticks: 0, ..*old(self) }),
    {
        self.remaining_ticks = 0;
    }

    /// Advances `speed` cells and returns the cells crossed, the starting one first.
    pub fn tick(&mut self) -> (r: Vec<Position>)
        requires
            old(self).remaining_ticks > 0,
            old(self).speed <= MAX_REACH,
            roomy(old(self).position),
        ensures
            r@.len() == old(self).speed + 1,
            forall|k: int| 0 <= k < r@.len() ==> #[trigger] r@[k] == old(self).position.ray(old(self).direction, k),
            *final(self) == (Projectile {
                position: old(self).position.ray(old(self).direction, old(self).speed as int),
                remaining_ticks: (old(self).remaining_ticks - 1) as u32,
                ..*old(self)
            }),
    {
        let ghost start = self.position;
        let ghost d = self.direction;
        let mut positions: Vec<Position> = Vec::new();
        positions.push(self.position);
        let mut i: u32 = 0;
        while i < self.speed
            invariant
                0 <= i <= self.speed,
                self.speed <= MAX_REACH,
                roomy(start),
                self.direction == d,
                self.position == start.ray(d, i as int),
                positions@.len() == i + 1,
                forall|k: int| 0 <= k < positions@.len() ==> #[trigger] positions@[k] == start.ray(d, k),
                self.owner == old(self).owner,
                self.name == old(self).name,
                self.remaining_ticks == old(self).remaining_ticks,
                self.speed == old(self).speed,
                self.damage == old(self).damage,
                d == old(self).direction,
                start == old(self).position,
            decreases self.speed - i,
        {
            proof {
                lemma_ray(start, d, i as int);
            }
            match self.direction {
                Direction::Up | Direction::UpLeft | Direction::UpRight => self.position.y = self.position.y - 1,
                Direction::Down | Direction::DownLeft | Direction::DownRight => self.position.y = self.position.y + 1,
                _ => {},
            }
            match self.direction {
                Direction::Left | Direction::UpLeft | Direction::DownLeft => self.position.x = self.position.x - 1,
                Direction::Right | Direction::UpRight | Direction::DownRight => self.position.x = self.position.x + 1,
                _ => {},
            }
            positions.push(self.position);
            i = i + 1;
        }
        self.remaining_ticks = self.remaining_ticks - 1;
        positions
    }
}

/// A stack of one item in a player's inventory, with its cooldown.
#[derive(Debug)]
pub struct InventoryItem {
    pub name: String,
    pub data: ItemData,
    pub cooldown: TickDuration,
    pub remaining_ticks: TickDuration,
    pub quantity: ItemQuantity,
}

impl Clone for InventoryItem {
    fn clone(&self) -> (r: InventoryItem)
        ensures
            r == *self,
    {
        InventoryItem {
            name: self.name.clone(),
            data: self.data,
            cooldown: self.cooldown,
            remaining_ticks: self.remaining_ticks,
            quantity: self.quantity,
        }
    }
}

/// Whether a stack still holds something.
pub open spec fn has_stock(q: ItemQuantity) -> bool {
    match q {
        ItemQuantity::Infinite => true,
        ItemQuantity::Finite(n) => n > 0,
    }
}

impl InventoryItem {
    pub open spec fn spec_new(item: Item) -> InventoryItem {
        InventoryItem {
            name: item.name,
            data: item.data,
            cooldown: item.cooldown,
            remaining_ticks: 0,
            quantity: item.quantity,
        }
    }

    pub open spec fn spec_usable(self, ignore_cooldowns: bool) -> bool {
        (ignore_cooldowns || self.remaining_ticks == 0) && has_stock(self.quantity)
    }

    pub fn new(item: &Item) -> (r: InventoryItem)
        ensures
            r == InventoryItem::spec_new(*item),
    {
        InventoryItem {
            name: item.name.clone(),
            data: item.data,
            cooldown: item.cooldown,
            quantity: item.quantity,
            remaining_ticks: 0,
        }
    }

    pub fn quantity(&self) -> (r: &ItemQuantity)
        ensures
            *r == self.quantity,
    {
        &self.quantity
    }

    /// Adds a picked-up stack of the same item to this one.
    pub fn pick_up(&mut self, qtty: &ItemQuantity)
        ensures
            *final(self) == (InventoryItem {
                quantity: match (*qtty, old(self).quantity) {
                    (ItemQuantity::Infinite, _) => ItemQuantity::Infinite,
                    (ItemQuantity::Finite(n), ItemQuantity::Finite(e)) => ItemQuantity::Finite(
                        if e + n <= u32::MAX { (e + n) as u32 } else { u32::MAX },
                    ),
                    (ItemQuantity::Finite(_), ItemQuantity::Infinite) => ItemQuantity::Infinite,
                },
                ..*old(self)
            }),
    {
        match qtty {
            ItemQuantity::Infinite => self.quantity = ItemQuantity::Infinite,
            ItemQuantity::Finite(n) => {
                if let ItemQuantity::Finite(e) = self.quantity {
                    self.quantity = ItemQuantity::Finite(e.saturating_add(*n));
                }
            },
        }
    }

    pub fn is_usable(&self, ignore_cooldowns: bool) -> (r: bool)
        ensures
            r == self.spec_usable(ignore_cooldowns),
    {
        if !ignore_cooldowns && self.remaining_ticks > 0 {
            false
        } else {
            match self.quantity {
                ItemQuantity::Infinite => true,
                ItemQuantity::Finite(quantity) => quantity > 0,
            }
        }
    }

    /// Spends one use: the cooldown restarts and a finite stack shrinks by one.
    pub fn use_one(&mut self)
        ensures
            *final(self) == (InventoryItem {
                remaining_ticks: if old(self).cooldown < u32::MAX { (old(self).cooldown + 1) as u32 } else { u32::MAX },
                quantity: match old(self).quantity {
                    ItemQuantity::Infinite => ItemQuantity::Infinite,
                    ItemQuantity::Finite(n) => ItemQuantity::Finite(if n > 0 { (n - 1) as u32 } else { 0 }),
                },
                ..*old(self)
            }),
    {
        self.remaining_ticks = self.cooldown.saturating_add(1);
        if let ItemQuantity::Finite(n) = self.quantity {
            self.quantity = ItemQuantity::Finite(n.saturating_sub(1));
        }
    }

    pub fn tick(&mut self)
        ensures
            *final(self) == (InventoryItem {
                remaining_ticks: if old(self).remaining_ticks > 0 { (old(self).remaining_ticks - 1) as u32 } else { 0 },
                ..*old(self)
            }),
    {
        self.remaining_ticks = self.remaining_ticks.saturating_sub(1);
    }
}

/// What a team asks its player to do during the next tick.
#[derive(Debug)]
pub enum Action {
    Move { position: Position },
    Phase { direction: CardinalDirection },
    OpenChest { position: Position },
    UseItem { name: String, data: ActionUseItem },
    SegFault,
    Skip,
}

/// The item-kind specific part of a use-item action.
#[derive(Debug, Clone, Copy, PartialEq, Eq, Structural)]
pub enum ActionUseItem {
    Buff,
    Projectile { direction: Direction },
    Placed { position: Position, place_rectangle_vertical: bool },
    Nuke,
}

} // verus!
