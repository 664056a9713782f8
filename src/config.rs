//! Game configuration: scoring table, combat constants and world generation.
use vstd::prelude::*;
use crate::items::Item;
use crate::types::FirewallPattern;

verus! {

/// Largest width or height of a map: below 2^15, so that the four firewall draws
/// of every cell can be numbered by a 32-bit `usize`.
pub const MAX_SIDE: u32 = 32_767;

/// Score awarded or taken for each kind of happening.
#[derive(Debug, Clone, Copy, PartialEq, Eq, Structural)]
pub struct ScoreConfig {
    pub victory: i32,
    pub kill_player: i32,
    pub break_wall: i32,
    pub use_buff: i32,
    pub loot_chest: i32,
    /// A dying player's score changes by this many hundredths per player already
    /// dead in that tick, rounded down.
    pub death_multiplier_percent: i32,
    /// Read from the configuration file; a living player gains one point every tenth tick.
    pub survive_10_ticks: i32,
    pub step_onto_trap: i32,
    pub get_killed_by_player: i32,
    pub get_killed_by_firewall: i32,
    pub get_killed_by_yourself: i32,
}

/// The scoring table used when none is configured.
pub open spec fn default_scores() -> ScoreConfig {
    ScoreConfig {
        victory: 250,
        kill_player: 100,
        break_wall: 40,
        use_buff: 30,
        loot_chest: 20,
        death_multiplier_percent: 200,
        survive_10_ticks: 1,
        step_onto_trap: -10i32,
        get_killed_by_player: -50i32,
        get_killed_by_firewall: 0,
        get_killed_by_yourself: -200i32,
    }
}

impl Default for ScoreConfig {
    fn default() -> (r: ScoreConfig)
        ensures
            r == default_scores(),
    {
        ScoreConfig {
            victory: 250,
            kill_player: 100,
            break_wall: 40,
            use_buff: 30,
            loot_chest: 20,
            death_multiplier_percent: 200,
            survive_10_ticks: 1,
            step_onto_trap: -10,
            get_killed_by_player: -50,
            get_killed_by_firewall: 0,
            get_killed_by_yourself: -200,
        }
    }
}

/// Parameters of map generation that the simulation reads.
#[derive(Debug)]
pub struct WorldGenConfig {
    pub width: u32,
    pub height: u32,
    pub seed: Option<u64>,
    pub firewall_pattern: FirewallPattern,
    /// The firewall spreads to each neighbour with probability `1 / firewall_speed`.
    pub firewall_speed: u32,
    pub chest_max_number: usize,
    pub player_health: u32,
    pub player_items: Vec<Item>,
    pub chest_items: Vec<Item>,
}

impl WorldGenConfig {
    pub open spec fn wf(self) -> bool {
        &&& self.width <= MAX_SIDE
        &&& self.height <= MAX_SIDE
        &&& self.firewall_speed >= 1
        &&& self.chest_items@.len() <= u32::MAX
        &&& forall|i: int| 0 <= i < self.player_items@.len() ==> (#[trigger] self.player_items@[i]).wf()
        &&& forall|i: int| 0 <= i < self.chest_items@.len() ==> (#[trigger] self.chest_items@[i]).wf()
    }
}

impl Default for WorldGenConfig {
    fn default() -> (r: WorldGenConfig)
        ensures
            r.width == 200,
            r.height == 200,
            r.seed is None,
            r.firewall_pattern == FirewallPattern::FourCorner,
            r.firewall_speed == 8,
            r.chest_max_number == 1000,
            r.player_health == 100,
            r.player_items@.len() == 0,
            r.chest_items@.len() == 0,
    {
        WorldGenConfig {
            width: 200,
            height: 200,
            seed: None,
            firewall_pattern: FirewallPattern::FourCorner,
            firewall_speed: 8,
            chest_max_number: 1000,
            player_health: 100,
            player_items: Vec::new(),
            chest_items: Vec::new(),
        }
    }
}

/// Everything the simulation needs to know about its configuration.
#[derive(Debug)]
pub struct Config {
    pub ranked: bool,
    pub allow_single_player: bool,
    pub firewall_damage: u32,
    /// Damage multiplier of the damage buff, in percent.
    pub damage_multiplier_percent: u32,
    pub score: ScoreConfig,
    pub world_gen: WorldGenConfig,
}

impl Config {
    pub open spec fn wf(self) -> bool {
        self.world_gen.wf()
    }
}

impl Default for Config {
    fn default() -> (r: Config)
        ensures
            r.ranked,
            !r.allow_single_player,
            r.firewall_damage == 10,
            r.damage_multiplier_percent == 150,
            r.score == default_scores(),
            r.wf(),
    {
        let world_gen = WorldGenConfig::default();
        Config {
            ranked: true,
            allow_single_player: false,
            firewall_damage: 10,
            damage_multiplier_percent: 150,
            score: ScoreConfig::default(),
            world_gen,
        }
    }
}

} // verus!
