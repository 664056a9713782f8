//! The arena: bounds, terrain hazards, objects and projectiles.
use vstd::prelude::*;
use crate::config::MAX_SIDE;
use crate::entities::{ChestObject, Object, Projectile, holds_id};
use crate::items::{Item, MAX_REACH, roomy};
use crate::types::{PlayerId, Position};

verus! {

pub struct GameMap {
    /// Firewall cells, one flag per cell, row by row.
    pub firewall: Vec<bool>,
    /// Impassable cells, one flag per cell, row by row.
    pub vias: Vec<bool>,
    pub objects: Vec<Object>,
    pub projectiles: Vec<Projectile>,
    pub width: u32,
    pub height: u32,
}

/// A grid of `w * h` cells fits in memory indices.
pub proof fn lemma_cell_index(w: int, h: int, x: int, y: int)
    requires
        0 <= x < w <= MAX_SIDE,
        0 <= y < h <= MAX_SIDE,
    ensures
        0 <= y * w + x < w * h,
        w * h <= MAX_SIDE * MAX_SIDE,
{
    assert(0 <= y * w + x < w * h) by (nonlinear_arith)
        requires 0 <= x < w, 0 <= y < h;
    assert(w * h <= MAX_SIDE * MAX_SIDE) by (nonlinear_arith)
        requires 0 <= w <= MAX_SIDE, 0 <= h <= MAX_SIDE;
}

/// Whether a chest stands at `p`.
pub open spec fn is_chest_at(o: Object, p: Position) -> bool {
    o is Chest && o->Chest_0.position == p
}

impl GameMap {
    /// Object `i` is the first chest standing at `p`.
    pub open spec fn first_chest_is(self, p: Position, i: int) -> bool {
        &&& 0 <= i < self.objects@.len()
        &&& is_chest_at(self.objects@[i], p)
        &&& forall|j: int| 0 <= j < i ==> !is_chest_at(#[trigger] self.objects@[j], p)
    }

    /// No chest stands at `p`.
    pub open spec fn no_chest_at(self, p: Position) -> bool {
        forall|j: int| 0 <= j < self.objects@.len() ==> !is_chest_at(#[trigger] self.objects@[j], p)
    }

    /// This map is `m` after team `id` opened chest `i` for the first time: only
    /// that chest's openers changed, gaining `id`.
    pub open spec fn opened_chest(self, m: GameMap, i: int, id: PlayerId) -> bool {
        let c = m.objects@[i]->Chest_0;
        &&& self == (GameMap { objects: self.objects, ..m })
        &&& self.objects@.len() == m.objects@.len()
        &&& self.objects@[i] is Chest
        &&& self.objects@[i]->Chest_0 == (ChestObject { opened_by: self.objects@[i]->Chest_0.opened_by, ..c })
        &&& self.objects@[i]->Chest_0.opened_by@ == c.opened_by@.push(id)
        &&& forall|j: int| 0 <= j < m.objects@.len() && j != i ==> #[trigger] self.objects@[j] == m.objects@[j]
    }

    /// Same dimensions, grids and projectiles; objects differ at most in chest openers.
    pub open spec fn same_but_openers(self, o: GameMap) -> bool {
        &&& self.same_terrain(o)
        &&& self.projectiles == o.projectiles
        &&& self.objects@.len() == o.objects@.len()
        &&& forall|j: int| 0 <= j < self.objects@.len() ==> {
            &&& (#[trigger] self.objects@[j]).pos() == o.objects@[j].pos()
            &&& (self.objects@[j] is Chest <==> o.objects@[j] is Chest)
            &&& (!(self.objects@[j] is Chest) ==> self.objects@[j] == o.objects@[j])
            &&& (self.objects@[j] is Chest ==> self.objects@[j]->Chest_0.items@ == o.objects@[j]->Chest_0.items@)
        }
    }

    pub open spec fn in_bounds(self, p: Position) -> bool {
        0 <= p.x < self.width && 0 <= p.y < self.height
    }

    /// Index of an in-bounds cell in the grids.
    pub open spec fn idx(self, p: Position) -> int {
        p.y * self.width + p.x
    }

    pub open spec fn fire_at(self, p: Position) -> bool {
        self.in_bounds(p) && self.firewall@[self.idx(p)]
    }

    pub open spec fn via_at(self, p: Position) -> bool {
        self.in_bounds(p) && self.vias@[self.idx(p)]
    }

    pub open spec fn wall_at(self, p: Position) -> bool {
        exists|i: int| 0 <= i < self.objects@.len() && (#[trigger] self.objects@[i]).is_wall_at(p)
    }

    /// A player may stand on `p`.
    pub open spec fn passable(self, p: Position) -> bool {
        self.in_bounds(p) && !self.via_at(p) && !self.wall_at(p)
    }

    pub open spec fn wf(self) -> bool {
        &&& self.width <= MAX_SIDE
        &&& self.height <= MAX_SIDE
        &&& self.firewall@.len() == self.width * self.height
        &&& self.vias@.len() == self.width * self.height
        &&& forall|i: int| 0 <= i < self.objects@.len() ==> self.in_bounds((#[trigger] self.objects@[i]).pos())
        &&& forall|i: int|
            0 <= i < self.objects@.len() && (#[trigger] self.objects@[i]) is Chest ==> forall|j: int|
                0 <= j < self.objects@[i]->Chest_0.items@.len() ==> (#[trigger] self.objects@[i]->Chest_0.items@[j]).wf()
        &&& forall|i: int|
            0 <= i < self.projectiles@.len() ==> roomy((#[trigger] self.projectiles@[i]).position)
                && self.projectiles@[i].speed <= MAX_REACH
    }

    /// Same grids and dimensions.
    pub open spec fn same_terrain(self, o: GameMap) -> bool {
        self.width == o.width && self.height == o.height && self.firewall@ == o.firewall@ && self.vias@
            == o.vias@
    }

    pub fn new(width: u32, height: u32) -> (r: GameMap)
        requires
            width <= MAX_SIDE,
            height <= MAX_SIDE,
        ensures
            r.wf(),
            r.width == width,
            r.height == height,
            r.objects@.len() == 0,
            r.projectiles@.len() == 0,
            forall|p: Position| !r.fire_at(p) && !r.via_at(p),
            forall|i: int| 0 <= i < r.vias@.len() ==> !(#[trigger] r.vias@[i]),
            forall|i: int| 0 <= i < r.firewall@.len() ==> !(#[trigger] r.firewall@[i]),
    {
        proof {
            assert(width * height <= MAX_SIDE * MAX_SIDE) by (nonlinear_arith)
                requires width <= MAX_SIDE, height <= MAX_SIDE;
        }
        let n: usize = width as usize * height as usize;
        let r = GameMap {
            firewall: empty_grid(n),
            vias: empty_grid(n),
            objects: Vec::new(),
            projectiles: Vec::new(),
            width,
            height,
        };
        assert forall|p: Position| !r.fire_at(p) && !r.via_at(p) by {
            if r.in_bounds(p) {
                lemma_cell_index(width as int, height as int, p.x as int, p.y as int);
            }
        }
        r
    }

    /// Removes every hazard, object and projectile, keeping the dimensions.
    pub fn clear(&mut self)
        requires
            old(self).wf(),
        ensures
            final(self).wf(),
            final(self).width == old(self).width,
            final(self).height == old(self).height,
            final(self).objects@.len() == 0,
            final(self).projectiles@.len() == 0,
            forall|p: Position| !final(self).fire_at(p) && !final(self).via_at(p),
    {
        *self = GameMap::new(self.width, self.height);
    }

    pub fn is_within_bounds(&self, pos: &Position) -> (r: bool)
        ensures
            r == self.in_bounds(*pos),
            r == (0 <= pos.x < self.width && 0 <= pos.y < self.height),
    {
        pos.x >= 0 && pos.y >= 0 && (pos.x as i64) < (self.width as i64) && (pos.y as i64) < (
        self.height as i64)
    }

    /// Index of an in-bounds cell in the grids.
    pub fn cell_index(&self, pos: &Position) -> (r: usize)
        requires
            self.wf(),
            self.in_bounds(*pos),
        ensures
            r == self.idx(*pos),
            r < self.firewall@.len(),
    {
        proof {
            lemma_cell_index(self.width as int, self.height as int, pos.x as int, pos.y as int);
        }
        pos.y as usize * self.width as usize + pos.x as usize
    }

    pub fn is_firewall(&self, pos: &Position) -> (r: bool)
        requires
            self.wf(),
        ensures
            r == self.fire_at(*pos),
    {
        if self.is_within_bounds(pos) {
            let i = self.cell_index(pos);
            self.firewall[i]
        } else {
            false
        }
    }

    pub fn is_via(&self, pos: &Position) -> (r: bool)
        requires
            self.wf(),
        ensures
            r == self.via_at(*pos),
    {
        if self.is_within_bounds(pos) {
            let i = self.cell_index(pos);
            self.vias[i]
        } else {
            false
        }
    }

    pub fn has_wall_at(&self, pos: &Position) -> (r: bool)
        ensures
            r == self.wall_at(*pos),
    {
        let mut i: usize = 0;
        while i < self.objects.len()
            invariant
                0 <= i <= self.objects@.len(),
                forall|j: int| 0 <= j < i ==> !(#[trigger] self.objects@[j]).is_wall_at(*pos),
            decreases self.objects@.len() - i,
        {
            match &self.objects[i] {
                Object::Wall(w) => {
                    if w.position == *pos {
                        assert(self.objects@[i as int].is_wall_at(*pos));
                        return true;
                    }
                },
                _ => {},
            }
            i = i + 1;
        }
        false
    }

    pub fn player_can_move_to(&self, pos: &Position) -> (r: bool)
        requires
            self.wf(),
        ensures
            r == self.passable(*pos),
    {
        if !self.is_within_bounds(pos) {
            return false;
        }
        if self.is_via(pos) {
            return false;
        }
        !self.has_wall_at(pos)
    }

    /// Index of the first chest standing at `pos`.
    pub fn find_chest(&self, pos: &Position) -> (r: Option<usize>)
        ensures
            match r {
                Some(i) => i < self.objects@.len() && is_chest_at(self.objects@[i as int], *pos)
                    && forall|j: int| 0 <= j < i ==> !is_chest_at(#[trigger] self.objects@[j], *pos),
                None => forall|j: int|
                    0 <= j < self.objects@.len() ==> !is_chest_at(#[trigger] self.objects@[j], *pos),
            },
    {
        let mut i: usize = 0;
        while i < self.objects.len()
            invariant
                0 <= i <= self.objects@.len(),
                forall|j: int| 0 <= j < i ==> !is_chest_at(#[trigger] self.objects@[j], *pos),
            decreases self.objects@.len() - i,
        {
            match &self.objects[i] {
                Object::Chest(c) => {
                    if c.position == *pos {
                        return Some(i);
                    }
                },
                _ => {},
            }
            i = i + 1;
        }
        None
    }

    /// Opens the first chest at `pos` for team `id`: its loot, if that team had not
    /// opened it yet.
    pub fn open_chest(&mut self, id: &PlayerId, position: &Position) -> (r: Option<Vec<Item>>)
        requires
            old(self).wf(),
        ensures
            final(self).wf(),
            final(self).same_but_openers(*old(self)),
            forall|p: Position| final(self).wall_at(p) == old(self).wall_at(p),
            old(self).no_chest_at(*position) ==> r is None && *final(self) == *old(self),
            forall|i: int| old(self).first_chest_is(*position, i) ==> {
                let c = old(self).objects@[i]->Chest_0;
                &&& holds_id(c.opened_by@, *id) ==> r is None && *final(self) == *old(self)
                &&& !holds_id(c.opened_by@, *id) ==> r is Some && r->0@ == c.items@
                    && final(self).opened_chest(*old(self), i, *id)
            },
            r is Some ==> forall|j: int| 0 <= j < r->0@.len() ==> (#[trigger] r->0@[j]).wf(),
    {
        match self.find_chest(position) {
            None => None,
            Some(i) => {
                let seen = match &self.objects[i] {
                    Object::Chest(c) => c.opened_by(id),
                    _ => true,
                };
                if seen {
                    return None;
                }
                let ghost before = *self;
                let mut obj = self.objects.remove(i);
                let r = match &mut obj {
                    Object::Chest(c) => c.open(id),
                    _ => None,
                };
                self.objects.insert(i, obj);
                proof {
                    assert(self.objects@ =~= before.objects@.update(i as int, obj));
                    assert forall|j: int| 0 <= j < self.objects@.len() implies self.in_bounds(
                        (#[trigger] self.objects@[j]).pos(),
                    ) by {
                        assert(before.objects@[j].pos() == self.objects@[j].pos());
                    }
                    assert forall|p: Position| self.wall_at(p) == before.wall_at(p) by {
                        if self.wall_at(p) {
                            let k = choose|k: int| 0 <= k < self.objects@.len() && (#[trigger] self.objects@[k]).is_wall_at(p);
                            assert(before.objects@[k].is_wall_at(p));
                        }
                        if before.wall_at(p) {
                            let k = choose|k: int| 0 <= k < before.objects@.len() && (#[trigger] before.objects@[k]).is_wall_at(p);
                            assert(self.objects@[k].is_wall_at(p));
                        }
                    }
                    assert forall|k: int|
                        0 <= k < before.objects@.len() && is_chest_at(before.objects@[k], *position) && (forall|j: int|
                            0 <= j < k ==> !is_chest_at(#[trigger] before.objects@[j], *position)) implies k == i by {
                        if k > i {
                            assert(!is_chest_at(before.objects@[i as int], *position));
                        }
                    }
                    assert forall|j: int| 0 <= j < self.objects@.len() && (#[trigger] self.objects@[j]) is Chest implies
                        forall|k: int| 0 <= k < self.objects@[j]->Chest_0.items@.len() ==> (#[trigger] self.objects@[j]->Chest_0.items@[k]).wf() by {
                        assert(before.objects@[j] is Chest);
                        assert(self.objects@[j]->Chest_0.items@ == before.objects@[j]->Chest_0.items@);
                    }
                }
                r
            },
        }
    }
}

/// A grid of `n` cells, none set.
pub fn empty_grid(n: usize) -> (r: Vec<bool>)
    ensures
        r@.len() == n,
        forall|i: int| 0 <= i < n ==> !(#[trigger] r@[i]),
{
    let mut g: Vec<bool> = Vec::new();
    let mut i: usize = 0;
    while i < n
        invariant
            0 <= i <= n,
            g@.len() == i,
            forall|j: int| 0 <= j < i ==> !(#[trigger] g@[j]),
        decreases n - i,
    {
        g.push(false);
        i = i + 1;
    }
    g
}

} // verus!
