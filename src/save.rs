//! Team records that outlive a map: what is handed to storage and read back.
use vstd::prelude::*;
use crate::config::WorldGenConfig;
use crate::player::{Player, loadout};
use crate::types::PlayerId;

verus! {

/// The lasting record of one team.
#[derive(Debug)]
pub struct SavedPlayer {
    pub name: String,
    pub score: i32,
    pub kills: u32,
    pub wins: u32,
    pub chests: u32,
    pub segfaults: u32,
}

/// The records of every team, in registry order.
#[derive(Debug)]
pub struct Save {
    pub players: Vec<(PlayerId, SavedPlayer)>,
}

impl Default for Save {
    fn default() -> (r: Save)
        ensures
            r.players@.len() == 0,
    {
        Save { players: Vec::new() }
    }
}

impl SavedPlayer {
    pub fn from_player(value: &Player) -> (r: SavedPlayer)
        ensures
            r.name == value.name,
            r.score == value.score,
            r.kills == value.total_kills,
            r.wins == value.total_wins,
            r.chests == value.total_opened_chests,
            r.segfaults == value.total_segfaults,
    {
        SavedPlayer {
            name: value.name().clone(),
            score: value.score(),
            kills: value.total_kills(),
            wins: value.total_wins(),
            chests: value.total_chests(),
            segfaults: value.total_segfaults(),
        }
    }
}

impl Player {
    /// A fresh player that carries a saved team's name, score and totals.
    pub fn from_saved(id: PlayerId, saved: SavedPlayer, config: &WorldGenConfig) -> (r: Player)
        requires
            config.wf(),
        ensures
            r.wf(),
            r.id == id,
            r.name == saved.name,
            r.score == saved.score,
            r.total_kills == saved.kills,
            r.total_wins == saved.wins,
            r.total_opened_chests == saved.chests,
            r.total_segfaults == saved.segfaults,
            r.hp == config.player_health,
            r.inventory@ == loadout(config.player_items@),
            r.action is None,
    {
        let mut player = Player::new(id, saved.name, config);
        player.score = saved.score;
        player.total_kills = saved.kills;
        player.total_wins = saved.wins;
        player.total_opened_chests = saved.chests;
        player.total_segfaults = saved.segfaults;
        player
    }
}

} // verus!
