//! The world: every team's player and the map, advanced one tick at a time.
use vstd::prelude::*;
use crate::config::Config;
use crate::entities::Action;
use crate::map::GameMap;
use crate::player::Player;
use crate::save::{Save, SavedPlayer};
use crate::types::{PlayerId, Position};

verus! {

/// The whole world, with the configuration it runs under.
pub struct Game {
    /// Players in registry order.
    pub players: Vec<Player>,
    pub map: GameMap,
    pub config: Config,
}

/// No two players share an id.
pub open spec fn ids_unique(players: Seq<Player>) -> bool {
    forall|i: int, j: int| 0 <= i < j < players.len() ==> (#[trigger] players[i]).id@ != (#[trigger] players[j]).id@
}

/// Length of a name in bytes, as UTF-8 (as `str::len` reports it).
pub open spec fn name_bytes(name: Seq<char>) -> int {
    (vstd::utf8::encode_utf8(name).len() as usize) as int
}

/// Index of the first player whose id is `id`, or -1.
pub open spec fn index_of(players: Seq<Player>, id: PlayerId) -> int
    decreases players.len(),
{
    if players.len() == 0 {
        -1
    } else {
        let r = index_of(players.drop_last(), id);
        if r >= 0 {
            r
        } else if players.last().id@ == id@ {
            players.len() - 1
        } else {
            -1
        }
    }
}

/// Index of the first player named `name`, or -1.
pub open spec fn index_named(players: Seq<Player>, name: Seq<char>) -> int
    decreases players.len(),
{
    if players.len() == 0 {
        -1
    } else {
        let r = index_named(players.drop_last(), name);
        if r >= 0 {
            r
        } else if players.last().name@ == name {
            players.len() - 1
        } else {
            -1
        }
    }
}

pub proof fn lemma_index_of(players: Seq<Player>, id: PlayerId)
    ensures
        -1 <= index_of(players, id) < players.len(),
        index_of(players, id) >= 0 ==> players[index_of(players, id)].id@ == id@,
        forall|j: int| 0 <= j < players.len() && (j < index_of(players, id) || index_of(players, id) < 0) ==> (
        #[trigger] players[j]).id@ != id@,
    decreases players.len(),
{
    if players.len() > 0 {
        lemma_index_of(players.drop_last(), id);
        assert forall|j: int| 0 <= j < players.len() - 1 implies #[trigger] players[j] == players.drop_last()[j] by {}
    }
}

pub proof fn lemma_index_named(players: Seq<Player>, name: Seq<char>)
    ensures
        -1 <= index_named(players, name) < players.len(),
        index_named(players, name) >= 0 ==> players[index_named(players, name)].name@ == name,
        forall|j: int| 0 <= j < players.len() && (j < index_named(players, name) || index_named(players, name) < 0) ==> (
        #[trigger] players[j]).name@ != name,
    decreases players.len(),
{
    if players.len() > 0 {
        lemma_index_named(players.drop_last(), name);
        assert forall|j: int| 0 <= j < players.len() - 1 implies #[trigger] players[j] == players.drop_last()[j] by {}
    }
}

/// The index is the first one with that id.
proof fn lemma_index_of_is(players: Seq<Player>, id: PlayerId, i: int)
    requires
        0 <= i <= players.len(),
        forall|j: int| 0 <= j < i ==> (#[trigger] players[j]).id@ != id@,
        i < players.len() ==> players[i].id@ == id@,
    ensures
        index_of(players, id) == (if i < players.len() { i } else { -1 }),
{
    lemma_index_of(players, id);
}

proof fn lemma_index_named_is(players: Seq<Player>, name: Seq<char>, i: int)
    requires
        0 <= i <= players.len(),
        forall|j: int| 0 <= j < i ==> (#[trigger] players[j]).name@ != name,
        i < players.len() ==> players[i].name@ == name,
    ensures
        index_named(players, name) == (if i < players.len() { i } else { -1 }),
{
    lemma_index_named(players, name);
}

impl Game {
    /// The map, the configuration and every player are well formed, and no two
    /// players share an id.
    pub open spec fn wf_core(self) -> bool {
        &&& self.map.wf()
        &&& self.config.wf()
        &&& ids_unique(self.players@)
        &&& forall|i: int| 0 <= i < self.players@.len() ==> (#[trigger] self.players@[i]).wf()
    }

    /// Between ticks, moreover, every projectile is inside the map.
    pub open spec fn wf(self) -> bool {
        &&& self.wf_core()
        &&& forall|i: int| 0 <= i < self.map.projectiles@.len() ==> self.map.in_bounds((#[trigger] self.map.projectiles@[i]).position)
    }

    /// A world holding the saved teams, on an empty map of the configured size.
    pub fn new(config: Config, save: Save) -> (r: Game)
        requires
            config.wf(),
            forall|i: int, j: int| 0 <= i < j < save.players@.len() ==> (#[trigger] save.players@[i]).0@ != (#[trigger] save.players@[j]).0@,
        ensures
            r.wf(),
            r.players@.len() == save.players@.len(),
            forall|i: int| 0 <= i < r.players@.len() ==> {
                let (id, s) = save.players@[i];
                &&& (#[trigger] r.players@[i]).id == id
                &&& r.players@[i].name == s.name
                &&& r.players@[i].score == s.score
                &&& r.players@[i].total_kills == s.kills
                &&& r.players@[i].total_wins == s.wins
            },
            r.map.width == config.world_gen.width,
            r.map.height == config.world_gen.height,
            r.map.objects@.len() == 0,
    {
        let mut players: Vec<Player> = Vec::new();
        let all = &save.players;
        let mut i: usize = 0;
        while i < all.len()
            invariant
                config.wf(),
                0 <= i <= all@.len(),
                players@.len() == i,
                forall|k: int| 0 <= k < i ==> (#[trigger] players@[k]).wf(),
                forall|k: int| 0 <= k < i ==> {
                    let (id, s) = all@[k];
                    &&& (#[trigger] players@[k]).id == id
                    &&& players@[k].name == s.name
                    &&& players@[k].score == s.score
                    &&& players@[k].total_kills == s.kills
                    &&& players@[k].total_wins == s.wins
                },
            decreases all@.len() - i,
        {
            let (id, s) = &all[i];
            let copy = SavedPlayer {
                name: s.name.clone(),
                score: s.score,
                kills: s.kills,
                wins: s.wins,
                chests: s.chests,
                segfaults: s.segfaults,
            };
            players.push(Player::from_saved(id.clone(), copy, &config.world_gen));
            i = i + 1;
        }
        let map = GameMap::new(config.world_gen.width, config.world_gen.height);
        Game { players, map, config }
    }

    /// Index of the first player with id `id`.
    pub fn find_player(&self, id: &PlayerId) -> (r: Option<usize>)
        ensures
            match r {
                Some(i) => i == index_of(self.players@, *id),
                None => index_of(self.players@, *id) == -1,
            },
            r is Some ==> r->0 < self.players@.len(),
    {
        let mut i: usize = 0;
        while i < self.players.len()
            invariant
                0 <= i <= self.players@.len(),
                forall|j: int| 0 <= j < i ==> (#[trigger] self.players@[j]).id@ != id@,
            decreases self.players@.len() - i,
        {
            if self.players[i].id == *id {
                proof {
                    lemma_index_of_is(self.players@, *id, i as int);
                }
                return Some(i);
            }
            i = i + 1;
        }
        proof {
            lemma_index_of_is(self.players@, *id, i as int);
        }
        None
    }

    /// Index of the first player named `name`.
    pub fn find_named(&self, name: &String) -> (r: Option<usize>)
        ensures
            match r {
                Some(i) => i == index_named(self.players@, name@),
                None => index_named(self.players@, name@) == -1,
            },
            r is Some ==> r->0 < self.players@.len(),
    {
        let mut i: usize = 0;
        while i < self.players.len()
            invariant
                0 <= i <= self.players@.len(),
                forall|j: int| 0 <= j < i ==> (#[trigger] self.players@[j]).name@ != name@,
            decreases self.players@.len() - i,
        {
            if self.players[i].name == *name {
                proof {
                    lemma_index_named_is(self.players@, name@, i as int);
                }
                return Some(i);
            }
            i = i + 1;
        }
        proof {
            lemma_index_named_is(self.players@, name@, i as int);
        }
        None
    }

    pub fn get_player_name(&self, id: &PlayerId) -> (r: Option<&String>)
        ensures
            index_of(self.players@, *id) < 0 ==> r is None,
            index_of(self.players@, *id) >= 0 ==> r == Some(&self.players@[index_of(self.players@, *id)].name),
    {
        match self.find_player(id) {
            Some(i) => Some(&self.players[i].name),
            None => None,
        }
    }

    /// Registers a new team under a fresh id, unless that id is already taken.
    pub fn create_player(&mut self, name: String) -> (r: PlayerId)
        requires
            old(self).wf(),
        ensures
            final(self).wf(),
            final(self).map == old(self).map,
            final(self).config == old(self).config,
            index_of(old(self).players@, r) >= 0 ==> final(self).players == old(self).players,
            index_of(old(self).players@, r) < 0 ==> {
                &&& final(self).players@.len() == old(self).players@.len() + 1
                &&& final(self).players@.drop_last() == old(self).players@
                &&& final(self).players@.last().id == r
                &&& final(self).players@.last().name == name
                &&& final(self).players@.last().score == 0
            },
    {
        let id = PlayerId::new();
        if self.find_player(&id).is_none() {
            proof {
                lemma_index_of(self.players@, id);
            }
            let p = Player::new(id.clone(), name, &self.config.world_gen);
            self.players.push(p);
            assert(self.players@.drop_last() =~= old(self).players@);
            assert(ids_unique(self.players@)) by {
                assert forall|i: int, j: int| 0 <= i < j < self.players@.len() implies (#[trigger] self.players@[i]).id@
                    != (#[trigger] self.players@[j]).id@ by {
                    assert(self.players@[i] == old(self).players@[i]);
                    if j < self.players@.len() - 1 {
                        assert(self.players@[j] == old(self).players@[j]);
                    }
                }
            }
        }
        id
    }

    /// Renames a team: the name must be at least three bytes long and belong to no team.
    pub fn rename_player(&mut self, id: &PlayerId, name: String) -> (r: bool)
        requires
            old(self).wf(),
        ensures
            final(self).wf(),
            final(self).map == old(self).map,
            final(self).config == old(self).config,
            r == (name_bytes(name@) >= 3 && index_named(old(self).players@, name@) < 0 && index_of(old(self).players@, *id) >= 0),
            !r ==> final(self).players == old(self).players,
            r ==> final(self).players@ == old(self).players@.update(
                index_of(old(self).players@, *id),
                Player { name, ..old(self).players@[index_of(old(self).players@, *id)] },
            ),
    {
        if name.as_str().len() < 3 || self.find_named(&name).is_some() {
            return false;
        }
        match self.find_player(id) {
            Some(i) => {
                let mut p = self.players.remove(i);
                p.rename(name);
                self.players.insert(i, p);
                true
            },
            None => false,
        }
    }

    /// Adds to the score of the first team named `name`.
    pub fn earn_score(&mut self, name: &String, score: i32) -> (r: bool)
        requires
            old(self).wf(),
        ensures
            final(self).wf(),
            final(self).map == old(self).map,
            final(self).config == old(self).config,
            r == (index_named(old(self).players@, name@) >= 0),
            !r ==> final(self).players == old(self).players,
            r ==> {
                let i = index_named(old(self).players@, name@);
                let p = old(self).players@[i];
                final(self).players@ == old(self).players@.update(
                    i,
                    Player { score: crate::player::add_score(p.score, score as int), ..p },
                )
            },
    {
        match self.find_named(name) {
            Some(i) => {
                let mut p = self.players.remove(i);
                p.earn_score(score);
                self.players.insert(i, p);
                true
            },
            None => false,
        }
    }

    /// Name and score of every team, in registry order.
    pub fn list_players(&self) -> (r: Vec<(String, i32)>)
        ensures
            r@.len() == self.players@.len(),
            forall|i: int| 0 <= i < r@.len() ==> #[trigger] r@[i] == (self.players@[i].name, self.players@[i].score),
    {
        let mut r: Vec<(String, i32)> = Vec::new();
        let mut i: usize = 0;
        while i < self.players.len()
            invariant
                0 <= i <= self.players@.len(),
                r@.len() == i,
                forall|k: int| 0 <= k < i ==> #[trigger] r@[k] == (self.players@[k].name, self.players@[k].score),
            decreases self.players@.len() - i,
        {
            r.push((self.players[i].name.clone(), self.players[i].score));
            i = i + 1;
        }
        r
    }

    /// Stores the team's action for the next tick, replacing any pending one.
    pub fn set_player_action(&mut self, id: &PlayerId, action: Action)
        requires
            old(self).wf(),
        ensures
            final(self).wf(),
            final(self).map == old(self).map,
            final(self).config == old(self).config,
            index_of(old(self).players@, *id) < 0 ==> final(self).players == old(self).players,
            index_of(old(self).players@, *id) >= 0 ==> {
                let i = index_of(old(self).players@, *id);
                final(self).players@ == old(self).players@.update(
                    i,
                    Player { action: Some(action), ..old(self).players@[i] },
                )
            },
    {
        match self.find_player(id) {
            Some(i) => {
                let mut p = self.players.remove(i);
                p.set_action(action);
                self.players.insert(i, p);
            },
            None => {},
        }
    }

    /// The lasting record of every team, in registry order.
    pub fn get_save(&self) -> (r: Save)
        ensures
            r.players@.len() == self.players@.len(),
            forall|i: int| 0 <= i < r.players@.len() ==> {
                let (id, s) = #[trigger] r.players@[i];
                let p = self.players@[i];
                &&& id == p.id
                &&& s.name == p.name
                &&& s.score == p.score
                &&& s.kills == p.total_kills
                &&& s.wins == p.total_wins
                &&& s.chests == p.total_opened_chests
                &&& s.segfaults == p.total_segfaults
            },
    {
        let mut players: Vec<(PlayerId, SavedPlayer)> = Vec::new();
        let mut i: usize = 0;
        while i < self.players.len()
            invariant
                0 <= i <= self.players@.len(),
                players@.len() == i,
                forall|k: int| 0 <= k < i ==> {
                    let (id, s) = #[trigger] players@[k];
                    let p = self.players@[k];
                    &&& id == p.id
                    &&& s.name == p.name
                    &&& s.score == p.score
                    &&& s.kills == p.total_kills
                    &&& s.wins == p.total_wins
                    &&& s.chests == p.total_opened_chests
                    &&& s.segfaults == p.total_segfaults
                },
            decreases self.players@.len() - i,
        {
            players.push((self.players[i].id.clone(), SavedPlayer::from_player(&self.players[i])));
            i = i + 1;
        }
        Save { players }
    }
}

} // verus!
