//! Platform state: players, game assets, tournaments, and the registries that
//! the battle and quest engines share.

use vstd::prelude::*;
use crate::combat_system::Battle;
use crate::levels::{asset_level_spec, calculate_level, floor_sqrt, player_level_spec};
use crate::combat_system::with_stats;
use crate::quest_system::{players_frame, MissionTemplate, PlayerMission};

verus! {

/// Opaque, unique identity of an account.
#[derive(Clone, Copy, Debug, PartialEq, Eq, Structural)]
pub struct Address(pub u64);

#[derive(Clone, Copy, Debug, PartialEq, Eq, Structural)]
pub enum AssetType {
    Weapon,
    Character,
    Skin,
    Consumable,
    Vehicle,
    Structure,
}

/// Asset rarity, ordered Common < Rare < Epic < Legendary.
#[derive(Clone, Copy, Debug, PartialEq, Eq, Structural)]
pub enum Rarity {
    Common,
    Rare,
    Epic,
    Legendary,
}

#[derive(Clone, Copy, Debug, PartialEq, Eq, Structural)]
pub enum TournamentStatus {
    Registration,
    Active,
    Completed,
    Cancelled,
}

/// Why an operation was refused. A refused operation changes nothing.
#[derive(Clone, Copy, Debug, PartialEq, Eq, Structural)]
pub enum GameError {
    PlayerNotRegistered,
    PlayerAlreadyRegistered,
    OpponentNotRegistered,
    RecipientNotRegistered,
    NotAdmin,
    TooManyAssets,
    AssetNotOwned,
    AssetNotFound,
    AssetDoesNotExist,
    NotAssetOwner,
    InsufficientPayment,
    BattleNotFound,
    NotTheDefender,
    BattleAlreadyAccepted,
    BattleNotActive,
    NotYourTurn,
    AssetNotInBattle,
    PrizePoolRequired,
    TournamentNotFound,
    RegistrationClosed,
    TournamentFull,
    InsufficientEntryFee,
    AlreadyRegistered,
    MissionAlreadyActive,
    MissionNotFound,
    MissionNotActive,
    LevelRequirementNotMet,
    PrerequisiteNotCompleted,
    RequiredAssetNotFound,
    ObjectiveAlreadyCompleted,
    ObjectiveNotFound,
    InsufficientAssetsCollected,
    InsufficientBattlesWon,
    TournamentProofRequired,
    ExplorationProofRequired,
    /// A counter or an id would leave the range of its integer type.
    Overflow,
}

#[derive(Debug)]
pub struct PlayerStats {
    pub level: u32,
    pub experience: u64,
    pub games_played: u32,
    pub games_won: u32,
    pub assets_owned: u32,
    pub achievements: Vec<String>,
}

impl Clone for PlayerStats {
    fn clone(&self) -> (r: Self)
        ensures
            r.level == self.level,
            r.experience == self.experience,
            r.games_played == self.games_played,
            r.games_won == self.games_won,
            r.assets_owned == self.assets_owned,
            r.achievements@ == self.achievements@,
    {
        let achievements = self.achievements.clone();
        assert(achievements@ =~= self.achievements@);
        PlayerStats {
            level: self.level,
            experience: self.experience,
            games_played: self.games_played,
            games_won: self.games_won,
            assets_owned: self.assets_owned,
            achievements,
        }
    }
}

#[derive(Debug)]
pub struct PlayerProfile {
    pub address: Address,
    pub stats: PlayerStats,
    pub stardust_points: u64,
    pub titles: Vec<String>,
    pub active_missions: u32,
    pub joined_at: u64,
}

#[derive(Debug)]
pub struct GameAsset {
    pub id: u64,
    pub owner: Address,
    pub asset_type: AssetType,
    pub rarity: Rarity,
    pub name: String,
    pub description: String,
    pub created_at: u64,
    pub level: u32,
    pub experience: u64,
}

impl Clone for GameAsset {
    fn clone(&self) -> (r: Self)
        ensures
            r == *self,
    {
        GameAsset {
            id: self.id,
            owner: self.owner,
            asset_type: self.asset_type,
            rarity: self.rarity,
            name: self.name.clone(),
            description: self.description.clone(),
            created_at: self.created_at,
            level: self.level,
            experience: self.experience,
        }
    }
}

#[derive(Debug)]
pub struct Tournament {
    pub id: u64,
    pub name: String,
    pub organizer: Address,
    pub entry_fee: u128,
    pub prize_pool: u128,
    pub max_participants: u32,
    pub current_participants: u32,
    pub start_time: u64,
    pub status: TournamentStatus,
    pub participants: Vec<Address>,
}

#[derive(Clone, Copy, Debug, PartialEq, Eq, Structural)]
pub struct PlatformStats {
    pub total_players: u64,
    pub total_assets: u64,
    pub total_tournaments: u64,
    pub total_battles: u64,
    pub total_missions: u64,
}

/// Everything the engine keeps about one registered player.
#[derive(Debug)]
pub struct PlayerRecord {
    pub address: Address,
    pub stats: PlayerStats,
    pub stardust_points: u64,
    /// Titles, without duplicates.
    pub titles: Vec<String>,
    /// Missions in progress, at most one per mission id.
    pub active_missions: Vec<PlayerMission>,
    /// Ids of completed missions, without duplicates.
    pub completed_missions: Vec<u64>,
}

/// No two titles carry the same text.
pub open spec fn distinct_texts(ts: Seq<String>) -> bool {
    forall|i: int, j: int| 0 <= i < j < ts.len() ==> ts[i]@ != ts[j]@
}

impl PlayerRecord {
    /// At most one active instance per mission id.
    pub open spec fn active_unique(&self) -> bool {
        forall|i: int, j: int|
            0 <= i < j < self.active_missions@.len() ==> self.active_missions@[i].mission_id
                != self.active_missions@[j].mission_id
    }

    /// The level follows the experience; active missions, titles and
    /// completed missions hold no duplicates.
    pub open spec fn wf(&self) -> bool {
        &&& self.active_unique()
        &&& self.stats.level == player_level_u32(self.stats.experience)
        &&& distinct_texts(self.titles@)
        &&& self.completed_missions@.no_duplicates()
    }
}

impl GameAsset {
    /// The asset stored at position `k`: id `k + 1`, level following experience.
    pub open spec fn wf_at(&self, k: int) -> bool {
        &&& self.id == k + 1
        &&& self.level == asset_level_spec(self.experience) as u32
    }
}

pub open spec fn assets_wf(assets: Seq<GameAsset>) -> bool {
    forall|k: int| 0 <= k < assets.len() ==> (#[trigger] assets[k]).wf_at(k)
}

pub open spec fn registered_in(players: Seq<PlayerRecord>, a: Address) -> bool {
    exists|i: int| 0 <= i < players.len() && players[i].address == a
}

/// Number of assets that `a` owns.
pub open spec fn owned_count(assets: Seq<GameAsset>, a: Address) -> nat
    decreases assets.len(),
{
    if assets.len() == 0 {
        0
    } else {
        owned_count(assets.drop_last(), a) + if assets.last().owner == a {
            1nat
        } else {
            0nat
        }
    }
}

/// Every asset belongs to a registered player.
pub open spec fn owners_registered(players: Seq<PlayerRecord>, assets: Seq<GameAsset>) -> bool {
    forall|k: int| 0 <= k < assets.len() ==> registered_in(players, (#[trigger] assets[k]).owner)
}

/// Each player's asset counter is the number of assets it owns.
pub open spec fn counts_match(players: Seq<PlayerRecord>, assets: Seq<GameAsset>) -> bool {
    forall|i: int|
        0 <= i < players.len() ==> (#[trigger] players[i]).stats.assets_owned == owned_count(
            assets,
            players[i].address,
        )
}

pub proof fn lemma_count_push(s: Seq<GameAsset>, x: GameAsset, a: Address)
    ensures
        owned_count(s.push(x), a) == owned_count(s, a) + if x.owner == a {
            1nat
        } else {
            0nat
        },
{
    assert(s.push(x).drop_last() =~= s);
}

pub proof fn lemma_count_update(s: Seq<GameAsset>, i: int, x: GameAsset, a: Address)
    requires
        0 <= i < s.len(),
    ensures
        owned_count(s.update(i, x), a) + (if s[i].owner == a {
            1nat
        } else {
            0nat
        }) == owned_count(s, a) + if x.owner == a {
            1nat
        } else {
            0nat
        },
    decreases s.len(),
{
    let t = s.update(i, x);
    if i == s.len() - 1 {
        assert(t.drop_last() =~= s.drop_last());
    } else {
        assert(t.drop_last() =~= s.drop_last().update(i, x));
        lemma_count_update(s.drop_last(), i, x, a);
    }
}

pub proof fn lemma_count_same_owners(s: Seq<GameAsset>, t: Seq<GameAsset>, a: Address)
    requires
        s.len() == t.len(),
        forall|k: int| 0 <= k < s.len() ==> s[k].owner == t[k].owner,
    ensures
        owned_count(s, a) == owned_count(t, a),
    decreases s.len(),
{
    if s.len() > 0 {
        lemma_count_same_owners(s.drop_last(), t.drop_last(), a);
    }
}

pub proof fn lemma_count_zero(s: Seq<GameAsset>, a: Address)
    requires
        forall|k: int| 0 <= k < s.len() ==> s[k].owner != a,
    ensures
        owned_count(s, a) == 0,
    decreases s.len(),
{
    if s.len() > 0 {
        lemma_count_zero(s.drop_last(), a);
    }
}

pub proof fn lemma_count_positive(s: Seq<GameAsset>, i: int)
    requires
        0 <= i < s.len(),
    ensures
        owned_count(s, s[i].owner) >= 1,
    decreases s.len(),
{
    if i < s.len() - 1 {
        lemma_count_positive(s.drop_last(), i);
    }
}

/// Player updates that keep addresses and asset counters, with asset updates
/// that keep owners, keep ownership consistent.
pub proof fn lemma_ownership_kept(
    op: Seq<PlayerRecord>,
    oa: Seq<GameAsset>,
    np: Seq<PlayerRecord>,
    na: Seq<GameAsset>,
)
    requires
        owners_registered(op, oa),
        counts_match(op, oa),
        np.len() == op.len(),
        forall|k: int|
            0 <= k < op.len() ==> np[k].address == op[k].address && np[k].stats.assets_owned
                == op[k].stats.assets_owned,
        na.len() == oa.len(),
        forall|k: int| 0 <= k < oa.len() ==> na[k].owner == oa[k].owner,
    ensures
        owners_registered(np, na),
        counts_match(np, na),
{
    lemma_registrations_kept(op, np);
    assert forall|i: int| 0 <= i < np.len() implies (#[trigger] np[i]).stats.assets_owned
        == owned_count(na, np[i].address) by {
        lemma_count_same_owners(oa, na, np[i].address);
    }
    assert forall|k: int| 0 <= k < na.len() implies registered_in(np, (#[trigger] na[k]).owner) by {
        assert(registered_in(op, oa[k].owner));
    }
}

/// Updates that keep every registered address keep every registration.
pub proof fn lemma_registrations_kept(o: Seq<PlayerRecord>, n: Seq<PlayerRecord>)
    requires
        o.len() <= n.len(),
        forall|k: int| 0 <= k < o.len() ==> n[k].address == o[k].address,
    ensures
        forall|a: Address| registered_in(o, a) ==> registered_in(n, a),
{
    assert forall|a: Address| registered_in(o, a) implies registered_in(n, a) by {
        let i = choose|i: int| 0 <= i < o.len() && o[i].address == a;
        assert(n[i].address == a);
    }
}

/// A catalog entry: a mission template under its mission id.
#[derive(Debug)]
pub struct CatalogEntry {
    pub mission_id: u64,
    pub template: MissionTemplate,
}

/// The whole game state. Asset, battle and tournament ids are allocated in
/// sequence from 1: the item with id `k` is stored at index `k - 1`.
#[derive(Debug)]
pub struct StardustContracts {
    pub admin: Address,
    pub players: Vec<PlayerRecord>,
    pub assets: Vec<GameAsset>,
    pub tournaments: Vec<Tournament>,
    pub battles: Vec<Battle>,
    pub missions: Vec<CatalogEntry>,
}

pub const STARTING_POINTS: u64 = 100;

pub open spec fn player_level_u32(experience: u64) -> u32 {
    player_level_spec(experience) as u32
}

/// Stats after `amount` more experience, with the level recomputed.
pub open spec fn stats_with_experience(s: PlayerStats, amount: u64) -> PlayerStats {
    PlayerStats {
        experience: (s.experience + amount) as u64,
        level: player_level_u32((s.experience + amount) as u64),
        ..s
    }
}

pub open spec fn rarity_rank(r: Rarity) -> int {
    match r {
        Rarity::Common => 0,
        Rarity::Rare => 1,
        Rarity::Epic => 2,
        Rarity::Legendary => 3,
    }
}

pub open spec fn rarity_base_power(r: Rarity) -> int {
    match r {
        Rarity::Common => 10,
        Rarity::Rare => 25,
        Rarity::Epic => 50,
        Rarity::Legendary => 100,
    }
}

/// `power(asset) = base(rarity) + level * 5 + floor(experience / 100)`.
pub open spec fn asset_power_spec(a: GameAsset) -> int {
    rarity_base_power(a.rarity) + a.level * 5 + a.experience / 100
}

pub open spec fn mint_cost_spec(r: Rarity) -> int {
    match r {
        Rarity::Common => 1_000_000_000_000_000_000,
        Rarity::Rare => 2_000_000_000_000_000_000,
        Rarity::Epic => 5_000_000_000_000_000_000,
        Rarity::Legendary => 10_000_000_000_000_000_000,
    }
}

/// The game asset with id `id`, if there is one.
pub open spec fn asset_exists(assets: Seq<GameAsset>, id: u64) -> bool {
    1 <= id <= assets.len()
}

/// The asset with id `id` exists and belongs to `owner`.
pub open spec fn owns_asset(assets: Seq<GameAsset>, owner: Address, id: u64) -> bool {
    asset_exists(assets, id) && assets[id - 1].owner == owner
}

/// Positive bound on an asset's power: base, level and experience terms.
pub open spec fn power_cap() -> int {
    0x0400_0000_0000_0000
}

pub proof fn lemma_power_bounded(a: GameAsset)
    ensures
        0 <= asset_power_spec(a) < power_cap(),
{
}

/// Rank of a rarity in the order Common < Rare < Epic < Legendary.
pub fn rarity_order(r: Rarity) -> (o: u8)
    ensures
        o == rarity_rank(r),
{
    match r {
        Rarity::Common => 0,
        Rarity::Rare => 1,
        Rarity::Epic => 2,
        Rarity::Legendary => 3,
    }
}

/// Power score of an asset, from its rarity, level and experience.
pub fn calculate_asset_power(asset: &GameAsset) -> (r: u64)
    ensures
        r == asset_power_spec(*asset),
{
    let base: u64 = match asset.rarity {
        Rarity::Common => 10,
        Rarity::Rare => 25,
        Rarity::Epic => 50,
        Rarity::Legendary => 100,
    };
    base + (asset.level as u64) * 5 + asset.experience / 100
}

/// Price of minting an asset of the given rarity.
pub fn get_mint_cost(rarity: Rarity) -> (r: u128)
    ensures
        r == mint_cost_spec(rarity),
{
    match rarity {
        Rarity::Common => 1_000_000_000_000_000_000,
        Rarity::Rare => 2_000_000_000_000_000_000,
        Rarity::Epic => 5_000_000_000_000_000_000,
        Rarity::Legendary => 10_000_000_000_000_000_000,
    }
}

/// Adds experience to a player's stats and recomputes the level.
pub fn add_player_experience(stats: &mut PlayerStats, amount: u64)
    requires
        old(stats).experience + amount <= u64::MAX,
    ensures
        *final(stats) == stats_with_experience(*old(stats), amount),
{
    stats.experience = stats.experience + amount;
    stats.level = calculate_level(stats.experience);
}

impl StardustContracts {
    /// Registered addresses are pairwise distinct, each player record is well
    /// formed, each asset is well formed at its position and owned by a
    /// registered player, each player's asset counter is the number of assets
    /// it owns, catalog ids are distinct, every template carries the payload
    /// its rewards name, and each battle and tournament is well formed at its
    /// position.
    pub open spec fn wf(&self) -> bool {
        &&& forall|i: int, j: int|
            0 <= i < j < self.players@.len() ==> self.players@[i].address
                != self.players@[j].address
        &&& forall|i: int| 0 <= i < self.players@.len() ==> (#[trigger] self.players@[i]).wf()
        &&& forall|i: int, j: int|
            0 <= i < j < self.missions@.len() ==> self.missions@[i].mission_id
                != self.missions@[j].mission_id
        &&& forall|i: int|
            0 <= i < self.missions@.len() ==> (#[trigger] self.missions@[i]).template.wf()
        &&& forall|k: int| 0 <= k < self.battles@.len() ==> (#[trigger] self.battles@[k]).wf_at(k)
        &&& assets_wf(self.assets@)
        &&& owners_registered(self.players@, self.assets@)
        &&& counts_match(self.players@, self.assets@)
        &&& forall|k: int| 0 <= k < self.tournaments@.len() ==> (#[trigger] self.tournaments@[k]).id == k + 1
    }

    pub open spec fn is_registered_spec(&self, a: Address) -> bool {
        registered_in(self.players@, a)
    }

    /// Index of the record of a registered address.
    pub open spec fn player_index(&self, a: Address) -> int {
        choose|i: int| 0 <= i < self.players@.len() && self.players@[i].address == a
    }

    /// The record of a registered address.
    pub open spec fn player(&self, a: Address) -> PlayerRecord {
        self.players@[self.player_index(a)]
    }

    /// Fresh state with the given administrator and nothing registered.
    pub fn init(admin: Address) -> (r: Self)
        ensures
            r.wf(),
            r.admin == admin,
            r.players@.len() == 0,
            r.assets@.len() == 0,
            r.tournaments@.len() == 0,
            r.battles@.len() == 0,
            r.missions@.len() == 0,
    {
        StardustContracts {
            admin,
            players: Vec::new(),
            assets: Vec::new(),
            tournaments: Vec::new(),
            battles: Vec::new(),
            missions: Vec::new(),
        }
    }

    /// Position of the record of `a`, if `a` is registered.
    pub fn find_player(&self, a: Address) -> (r: Option<usize>)
        requires
            self.wf(),
        ensures
            r.is_some() <==> self.is_registered_spec(a),
            r.is_some() ==> r.unwrap() == self.player_index(a),
    {
        let mut i: usize = 0;
        while i < self.players.len()
            invariant
                self.wf(),
                i <= self.players@.len(),
                forall|k: int| 0 <= k < i ==> self.players@[k].address != a,
            decreases self.players@.len() - i,
        {
            if self.players[i].address == a {
                proof {
                    let j = self.player_index(a);
                    assert(0 <= j < self.players@.len() && self.players@[j].address == a);
                    if j > i {
                        assert(self.players@[i as int].address != self.players@[j].address);
                    }
                }
                return Some(i);
            }
            i = i + 1;
        }
        None
    }

    pub fn is_player_registered(&self, player: Address) -> (r: bool)
        requires
            self.wf(),
        ensures
            r == self.is_registered_spec(player),
    {
        self.find_player(player).is_some()
    }

    /// Refuses unless `caller` is the administrator.
    pub fn require_caller_is_admin(&self, caller: Address) -> (r: Result<(), GameError>)
        ensures
            r == (if caller == self.admin {
                Ok::<(), GameError>(())
            } else {
                Err(GameError::NotAdmin)
            }),
    {
        if caller == self.admin {
            Ok(())
        } else {
            Err(GameError::NotAdmin)
        }
    }
}


/// Stats with the owned-asset counter moved by `delta`.
pub open spec fn stats_with_owned(s: PlayerStats, delta: int) -> PlayerStats {
    PlayerStats { assets_owned: (s.assets_owned + delta) as u32, ..s }
}

/// The assets owned by `player`, in id order.
pub open spec fn assets_of(assets: Seq<GameAsset>, player: Address) -> Seq<GameAsset>
    decreases assets.len(),
{
    if assets.len() == 0 {
        Seq::empty()
    } else {
        let rest = assets_of(assets.drop_last(), player);
        if assets.last().owner == player {
            rest.push(assets.last())
        } else {
            rest
        }
    }
}

/// Players after an asset moved from `from` (index `i_from`) to `to` (index `i_to`).
pub open spec fn players_after_transfer(players: Seq<PlayerRecord>, i_from: int, i_to: int) -> Seq<
    PlayerRecord,
> {
    let p1 = players.update(i_from, with_stats(players[i_from], stats_with_owned(players[i_from].stats, -1)));
    p1.update(i_to, with_stats(p1[i_to], stats_with_owned(p1[i_to].stats, 1)))
}

/// The first check that a transfer fails, if any.
pub open spec fn transfer_refusal(s: StardustContracts, caller: Address, asset_id: u64, to: Address) -> Option<
    GameError,
> {
    if !asset_exists(s.assets@, asset_id) {
        Some(GameError::AssetDoesNotExist)
    } else if s.assets@[asset_id - 1].owner != caller {
        Some(GameError::NotAssetOwner)
    } else if !s.is_registered_spec(to) {
        Some(GameError::RecipientNotRegistered)
    } else if caller != to && s.player(to).stats.assets_owned == u32::MAX {
        Some(GameError::Overflow)
    } else {
        None
    }
}

/// The first check that joining a tournament fails, if any.
pub open spec fn join_refusal(s: StardustContracts, caller: Address, tournament_id: u64, payment: u128) -> Option<
    GameError,
> {
    if !(1 <= tournament_id <= s.tournaments@.len()) {
        Some(GameError::TournamentNotFound)
    } else if !s.is_registered_spec(caller) {
        Some(GameError::PlayerNotRegistered)
    } else {
        let t = s.tournaments@[tournament_id - 1];
        if t.status != TournamentStatus::Registration {
            Some(GameError::RegistrationClosed)
        } else if t.current_participants >= t.max_participants {
            Some(GameError::TournamentFull)
        } else if payment < t.entry_fee {
            Some(GameError::InsufficientEntryFee)
        } else if t.participants@.contains(caller) {
            Some(GameError::AlreadyRegistered)
        } else if t.prize_pool + payment > u128::MAX {
            Some(GameError::Overflow)
        } else {
            None
        }
    }
}

/// Greeting of the platform.
pub fn hello() -> (r: String)
    ensures
        r@ == "Welcome to StardustEngine Gaming Platform v2.1!"@,
{
    String::from_str("Welcome to StardustEngine Gaming Platform v2.1!")
}

/// Version of the rules engine.
pub fn get_version() -> (r: String)
    ensures
        r@ == "v2.1.0-complete-gaming"@,
{
    String::from_str("v2.1.0-complete-gaming")
}

fn contains_address(v: &Vec<Address>, a: Address) -> (r: bool)
    ensures
        r == v@.contains(a),
{
    let mut i: usize = 0;
    while i < v.len()
        invariant
            i <= v@.len(),
            forall|k: int| 0 <= k < i ==> v@[k] != a,
        decreases v@.len() - i,
    {
        if v[i] == a {
            return true;
        }
        i = i + 1;
    }
    false
}

impl StardustContracts {
    /// Registers the caller once, at level 1 with 100 starting points.
    pub fn register_player(&mut self, caller: Address) -> (r: Result<(), GameError>)
        requires
            old(self).wf(),
        ensures
            final(self).wf(),
            old(self).is_registered_spec(caller) ==> r == Err::<(), GameError>(
                GameError::PlayerAlreadyRegistered,
            ) && *final(self) == *old(self),
            !old(self).is_registered_spec(caller) ==> {
                let n = old(self).players@.len();
                let p = final(self).players@[n as int];
                &&& r is Ok
                &&& final(self).players@.len() == n + 1
                &&& final(self).players@.subrange(0, n as int) == old(self).players@
                &&& p.address == caller
                &&& p.stats.level == 1
                &&& p.stats.experience == 0
                &&& p.stats.games_played == 0
                &&& p.stats.games_won == 0
                &&& p.stats.assets_owned == 0
                &&& p.stats.achievements@.len() == 0
                &&& p.stardust_points == STARTING_POINTS
                &&& p.titles@.len() == 0
                &&& p.active_missions@.len() == 0
                &&& p.completed_missions@.len() == 0
                &&& final(self).assets == old(self).assets
                &&& final(self).battles == old(self).battles
                &&& final(self).tournaments == old(self).tournaments
                &&& final(self).missions == old(self).missions
                &&& final(self).admin == old(self).admin
            },
    {
        if self.find_player(caller).is_some() {
            return Err(GameError::PlayerAlreadyRegistered);
        }
        let rec = PlayerRecord {
            address: caller,
            stats: PlayerStats {
                level: 1,
                experience: 0,
                games_played: 0,
                games_won: 0,
                assets_owned: 0,
                achievements: Vec::new(),
            },
            stardust_points: STARTING_POINTS,
            titles: Vec::new(),
            active_missions: Vec::new(),
            completed_missions: Vec::new(),
        };
        let ghost before = self.players@;
        self.players.push(rec);
        assert(self.players@.subrange(0, before.len() as int) =~= before);
        assert(forall|k: int| 0 <= k < before.len() ==> self.players@[k] == before[k]);
        proof {
            lemma_registrations_kept(before, self.players@);
            assert forall|k: int| 0 <= k < self.assets@.len() implies self.assets@[k].owner
                != caller by {
                assert(registered_in(before, self.assets@[k].owner));
            }
            lemma_count_zero(self.assets@, caller);
            assert(floor_sqrt(0) == 0);
        }
        Ok(())
    }

    /// Stats of a registered player.
    pub fn get_player_stats(&self, player: Address) -> (r: Option<&PlayerStats>)
        requires
            self.wf(),
        ensures
            r.is_some() == self.is_registered_spec(player),
            r.is_some() ==> *r.unwrap() == self.player(player).stats,
    {
        match self.find_player(player) {
            Some(i) => Some(&self.players[i].stats),
            None => None,
        }
    }

    /// Titles of a player; none for an unregistered address.
    pub fn get_player_titles(&self, player: Address) -> (r: Vec<String>)
        requires
            self.wf(),
        ensures
            self.is_registered_spec(player) ==> r@ == self.player(player).titles@,
            !self.is_registered_spec(player) ==> r@.len() == 0,
    {
        match self.find_player(player) {
            Some(i) => {
                let t = self.players[i].titles.clone();
                assert(t@ =~= self.players@[i as int].titles@);
                t
            },
            None => Vec::new(),
        }
    }

    /// Profile of a registered player as of `now`.
    pub fn get_player_profile(&self, player: Address, now: u64) -> (r: Option<PlayerProfile>)
        requires
            self.wf(),
        ensures
            r.is_some() == self.is_registered_spec(player),
            r.is_some() ==> {
                let p = r.unwrap();
                let rec = self.player(player);
                &&& p.address == player
                &&& p.stats.level == rec.stats.level
                &&& p.stats.experience == rec.stats.experience
                &&& p.stats.games_played == rec.stats.games_played
                &&& p.stats.games_won == rec.stats.games_won
                &&& p.stats.assets_owned == rec.stats.assets_owned
                &&& p.stats.achievements@ == rec.stats.achievements@
                &&& p.stardust_points == rec.stardust_points
                &&& p.titles@ == rec.titles@
                &&& p.active_missions == if rec.active_missions@.len() <= u32::MAX {
                    rec.active_missions@.len() as int
                } else {
                    u32::MAX as int
                }
                &&& p.joined_at == now
            },
    {
        match self.find_player(player) {
            Some(i) => {
                let rec = &self.players[i];
                let titles = rec.titles.clone();
                assert(titles@ =~= rec.titles@);
                let n = rec.active_missions.len();
                let active: u32 = if n <= u32::MAX as usize {
                    n as u32
                } else {
                    u32::MAX
                };
                Some(
                    PlayerProfile {
                        address: player,
                        stats: rec.stats.clone(),
                        stardust_points: rec.stardust_points,
                        titles,
                        active_missions: active,
                        joined_at: now,
                    },
                )
            },
            None => None,
        }
    }

    /// The administrator grants experience to a registered player; the level
    /// is recomputed.
    pub fn update_player_experience(&mut self, caller: Address, player: Address, exp_gained: u64) -> (r:
        Result<(), GameError>)
        requires
            old(self).wf(),
        ensures
            final(self).wf(),
            caller != old(self).admin ==> r == Err::<(), GameError>(GameError::NotAdmin),
            caller == old(self).admin && !old(self).is_registered_spec(player) ==> r == Err::<
                (),
                GameError,
            >(GameError::PlayerNotRegistered),
            caller == old(self).admin && old(self).is_registered_spec(player)
                && old(self).player(player).stats.experience + exp_gained > u64::MAX ==> r
                == Err::<(), GameError>(GameError::Overflow),
            caller == old(self).admin && old(self).is_registered_spec(player)
                && old(self).player(player).stats.experience + exp_gained <= u64::MAX ==> r is Ok,
            r is Err ==> *final(self) == *old(self),
            r is Ok ==> {
                let i = old(self).player_index(player);
                &&& caller == old(self).admin
                &&& old(self).is_registered_spec(player)
                &&& final(self).players@ == old(self).players@.update(
                    i,
                    with_stats(
                        old(self).players@[i],
                        stats_with_experience(old(self).players@[i].stats, exp_gained),
                    ),
                )
                &&& final(self).assets == old(self).assets
                &&& final(self).battles == old(self).battles
                &&& final(self).tournaments == old(self).tournaments
                &&& final(self).missions == old(self).missions
                &&& final(self).admin == old(self).admin
            },
    {
        let admin = self.require_caller_is_admin(caller);
        if admin.is_err() {
            return admin;
        }
        let i = match self.find_player(player) {
            Some(i) => i,
            None => return Err(GameError::PlayerNotRegistered),
        };
        if self.players[i].stats.experience > u64::MAX - exp_gained {
            return Err(GameError::Overflow);
        }
        let ghost before = self.players@;
        let mut rec = self.players.remove(i);
        add_player_experience(&mut rec.stats, exp_gained);
        self.players.insert(i, rec);
        assert(self.players@ =~= before.update(i as int, rec));
        proof {
            lemma_ownership_kept(before, self.assets@, self.players@, self.assets@);
        }
        assert(forall|k: int|
            0 <= k < before.len() ==> #[trigger] self.players@[k].address == before[k].address);
        assert(forall|k: int|
            0 <= k < before.len() ==> #[trigger] self.players@[k].active_missions
                == before[k].active_missions);
        Ok(())
    }

    /// Mints a new asset for a registered caller who paid at least the
    /// rarity's price; it starts at level 1 with no experience.
    pub fn mint_game_asset(
        &mut self,
        caller: Address,
        asset_type: AssetType,
        rarity: Rarity,
        name: String,
        description: String,
        payment: u128,
        now: u64,
    ) -> (r: Result<u64, GameError>)
        requires
            old(self).wf(),
        ensures
            final(self).wf(),
            payment < mint_cost_spec(rarity) ==> r == Err::<u64, GameError>(
                GameError::InsufficientPayment,
            ),
            payment >= mint_cost_spec(rarity) && !old(self).is_registered_spec(caller) ==> r
                == Err::<u64, GameError>(GameError::PlayerNotRegistered),
            payment >= mint_cost_spec(rarity) && old(self).is_registered_spec(caller) && (
            old(self).assets@.len() >= u64::MAX || old(self).player(caller).stats.assets_owned
                == u32::MAX) ==> r == Err::<u64, GameError>(GameError::Overflow),
            payment >= mint_cost_spec(rarity) && old(self).is_registered_spec(caller)
                && old(self).assets@.len() < u64::MAX && old(self).player(caller).stats.assets_owned
                < u32::MAX ==> r is Ok,
            r is Err ==> *final(self) == *old(self),
            r is Ok ==> {
                let n = old(self).assets@.len();
                let i = old(self).player_index(caller);
                &&& payment >= mint_cost_spec(rarity)
                &&& old(self).is_registered_spec(caller)
                &&& r == Ok::<u64, GameError>((n + 1) as u64)
                &&& final(self).assets@ == old(self).assets@.push(
                    GameAsset {
                        id: (n + 1) as u64,
                        owner: caller,
                        asset_type,
                        rarity,
                        name,
                        description,
                        created_at: now,
                        level: 1,
                        experience: 0,
                    },
                )
                &&& final(self).players@ == old(self).players@.update(
                    i,
                    with_stats(old(self).players@[i], stats_with_owned(old(self).players@[i].stats, 1)),
                )
                &&& final(self).battles == old(self).battles
                &&& final(self).tournaments == old(self).tournaments
                &&& final(self).missions == old(self).missions
                &&& final(self).admin == old(self).admin
            },
    {
        if payment < get_mint_cost(rarity) {
            return Err(GameError::InsufficientPayment);
        }
        let i = match self.find_player(caller) {
            Some(i) => i,
            None => return Err(GameError::PlayerNotRegistered),
        };
        let n = self.assets.len() as u64;
        if n == u64::MAX || self.players[i].stats.assets_owned == u32::MAX {
            return Err(GameError::Overflow);
        }
        let asset = GameAsset {
            id: n + 1,
            owner: caller,
            asset_type,
            rarity,
            name,
            description,
            created_at: now,
            level: 1,
            experience: 0,
        };
        let ghost oa = self.assets@;
        self.assets.push(asset);
        let ghost x = self.assets@[n as int];
        assert(self.assets@ =~= oa.push(x));
        let ghost before = self.players@;
        let mut rec = self.players.remove(i);
        rec.stats.assets_owned = rec.stats.assets_owned + 1;
        self.players.insert(i, rec);
        assert(self.players@ =~= before.update(i as int, rec));
        assert(forall|k: int|
            0 <= k < before.len() ==> #[trigger] self.players@[k].address == before[k].address);
        assert(forall|k: int|
            0 <= k < before.len() ==> #[trigger] self.players@[k].active_missions
                == before[k].active_missions);
        proof {
            let np = self.players@;
            let na = self.assets@;
            lemma_registrations_kept(before, np);
            assert forall|k: int| 0 <= k < na.len() implies registered_in(np, (#[trigger] na[k]).owner) by {
                if k < oa.len() {
                    assert(na[k] == oa[k]);
                    assert(registered_in(before, oa[k].owner));
                } else {
                    assert(np[i as int].address == caller);
                }
            }
            assert forall|j: int| 0 <= j < np.len() implies (#[trigger] np[j]).stats.assets_owned
                == owned_count(na, np[j].address) by {
                lemma_count_push(oa, x, np[j].address);
                if j != i {
                    if j < i {
                        assert(before[j].address != before[i as int].address);
                    } else {
                        assert(before[i as int].address != before[j].address);
                    }
                }
            }
            assert(floor_sqrt(0) == 0);
            assert(forall|k: int| 0 <= k < oa.len() ==> na[k] == oa[k]);
        }
        Ok(n + 1)
    }

    fn shift_owned(&mut self, i: usize, up: bool)
        requires
            i < old(self).players@.len(),
            up ==> old(self).players@[i as int].stats.assets_owned < u32::MAX,
            !up ==> old(self).players@[i as int].stats.assets_owned > 0,
        ensures
            final(self).players@ == old(self).players@.update(
                i as int,
                with_stats(
                    old(self).players@[i as int],
                    stats_with_owned(old(self).players@[i as int].stats, if up { 1 } else { -1 }),
                ),
            ),
            final(self).assets == old(self).assets,
            final(self).battles == old(self).battles,
            final(self).tournaments == old(self).tournaments,
            final(self).missions == old(self).missions,
            final(self).admin == old(self).admin,
    {
        let ghost before = self.players@;
        let mut rec = self.players.remove(i);
        if up {
            rec.stats.assets_owned = rec.stats.assets_owned + 1;
        } else {
            rec.stats.assets_owned = rec.stats.assets_owned - 1;
        }
        self.players.insert(i, rec);
        assert(self.players@ =~= before.update(
            i as int,
            with_stats(before[i as int], stats_with_owned(before[i as int].stats, if up { 1 } else { -1 })),
        ));
        assert(forall|k: int|
            0 <= k < before.len() ==> #[trigger] self.players@[k].address == before[k].address);
        assert(forall|k: int|
            0 <= k < before.len() ==> #[trigger] self.players@[k].active_missions
                == before[k].active_missions);
    }

    /// The owner of an asset hands it to a registered recipient.
    pub fn transfer_asset(&mut self, caller: Address, asset_id: u64, to: Address) -> (r: Result<
        (),
        GameError,
    >)
        requires
            old(self).wf(),
        ensures
            final(self).wf(),
            match transfer_refusal(*old(self), caller, asset_id, to) {
                Some(e) => r == Err::<(), GameError>(e) && *final(self) == *old(self),
                None => {
                    let k = asset_id - 1;
                    &&& r is Ok
                    &&& final(self).assets@ == old(self).assets@.update(
                        k,
                        GameAsset { owner: to, ..old(self).assets@[k] },
                    )
                    &&& final(self).players@ == players_after_transfer(
                        old(self).players@,
                        old(self).player_index(caller),
                        old(self).player_index(to),
                    )
                    &&& final(self).battles == old(self).battles
                    &&& final(self).tournaments == old(self).tournaments
                    &&& final(self).missions == old(self).missions
                    &&& final(self).admin == old(self).admin
                },
            },
    {
        if asset_id < 1 || asset_id > self.assets.len() as u64 {
            return Err(GameError::AssetDoesNotExist);
        }
        let k = (asset_id - 1) as usize;
        if self.assets[k].owner != caller {
            return Err(GameError::NotAssetOwner);
        }
        let it = match self.find_player(to) {
            Some(i) => i,
            None => return Err(GameError::RecipientNotRegistered),
        };
        proof {
            assert(registered_in(self.players@, self.assets@[k as int].owner));
        }
        let ic = self.find_player(caller).unwrap();
        if ic != it && self.players[it].stats.assets_owned == u32::MAX {
            return Err(GameError::Overflow);
        }
        proof {
            lemma_count_positive(self.assets@, k as int);
            assert(self.players@[ic as int].stats.assets_owned == owned_count(
                self.assets@,
                caller,
            ));
        }
        let ghost op = self.players@;
        let ghost before_assets = self.assets@;
        let mut a = self.assets.remove(k);
        a.owner = to;
        self.assets.insert(k, a);
        assert(self.assets@ =~= before_assets.update(k as int, a));
        self.shift_owned(ic, false);
        self.shift_owned(it, true);
        proof {
            let np = self.players@;
            let na = self.assets@;
            assert(forall|j: int| 0 <= j < op.len() ==> #[trigger] np[j].address == op[j].address);
            assert(forall|j: int|
                0 <= j < op.len() ==> #[trigger] np[j].active_missions == op[j].active_missions);
            assert(forall|j: int| 0 <= j < op.len() ==> #[trigger] np[j].wf()) by {
                assert forall|j: int| 0 <= j < op.len() implies #[trigger] np[j].wf() by {
                    assert(op[j].wf());
                }
            }
            lemma_registrations_kept(op, np);
            assert forall|j: int| 0 <= j < na.len() implies (#[trigger] na[j]).wf_at(j) by {
                assert(before_assets[j].wf_at(j));
            }
            assert forall|j: int| 0 <= j < na.len() implies registered_in(np, (#[trigger] na[j]).owner) by {
                if j != k {
                    assert(registered_in(op, before_assets[j].owner));
                }
            }
            assert forall|j: int| 0 <= j < np.len() implies (#[trigger] np[j]).stats.assets_owned
                == owned_count(na, np[j].address) by {
                lemma_count_update(before_assets, k as int, a, np[j].address);
                if j != ic && op[j].address == caller {
                    if j < ic {
                        assert(op[j].address != op[ic as int].address);
                    } else {
                        assert(op[ic as int].address != op[j].address);
                    }
                }
                if j != it && op[j].address == to {
                    if j < it {
                        assert(op[j].address != op[it as int].address);
                    } else {
                        assert(op[it as int].address != op[j].address);
                    }
                }
            }
        }
        Ok(())
    }

    /// The asset with the given id, if there is one.
    pub fn get_asset(&self, asset_id: u64) -> (r: Option<&GameAsset>)
        ensures
            r.is_some() == asset_exists(self.assets@, asset_id),
            r.is_some() ==> *r.unwrap() == self.assets@[asset_id - 1],
    {
        if asset_id >= 1 && asset_id <= self.assets.len() as u64 {
            Some(&self.assets[(asset_id - 1) as usize])
        } else {
            None
        }
    }

    /// The assets that `player` owns, in id order.
    pub fn get_player_assets(&self, player: Address) -> (r: Vec<GameAsset>)
        ensures
            r@ == assets_of(self.assets@, player),
    {
        let mut out: Vec<GameAsset> = Vec::new();
        let mut i: usize = 0;
        while i < self.assets.len()
            invariant
                i <= self.assets@.len(),
                out@ == assets_of(self.assets@.subrange(0, i as int), player),
            decreases self.assets@.len() - i,
        {
            assert(self.assets@.subrange(0, i + 1).drop_last() =~= self.assets@.subrange(
                0,
                i as int,
            ));
            if self.assets[i].owner == player {
                out.push(self.assets[i].clone());
            }
            i = i + 1;
        }
        assert(self.assets@.subrange(0, self.assets@.len() as int) =~= self.assets@);
        out
    }

    /// Opens a tournament whose prize pool is the payment, which must be positive.
    pub fn create_tournament(
        &mut self,
        caller: Address,
        name: String,
        entry_fee: u128,
        max_participants: u32,
        start_time: u64,
        payment: u128,
    ) -> (r: Result<u64, GameError>)
        requires
            old(self).wf(),
        ensures
            final(self).wf(),
            payment == 0 ==> r == Err::<u64, GameError>(GameError::PrizePoolRequired),
            payment > 0 && old(self).tournaments@.len() >= u64::MAX ==> r == Err::<u64, GameError>(
                GameError::Overflow,
            ),
            payment > 0 && old(self).tournaments@.len() < u64::MAX ==> r is Ok,
            r is Err ==> *final(self) == *old(self),
            r is Ok ==> {
                let n = old(self).tournaments@.len();
                let t = final(self).tournaments@[n as int];
                &&& payment > 0
                &&& r == Ok::<u64, GameError>((n + 1) as u64)
                &&& final(self).tournaments@.len() == n + 1
                &&& final(self).tournaments@.subrange(0, n as int) == old(self).tournaments@
                &&& t.id == n + 1
                &&& t.name == name
                &&& t.organizer == caller
                &&& t.entry_fee == entry_fee
                &&& t.prize_pool == payment
                &&& t.max_participants == max_participants
                &&& t.current_participants == 0
                &&& t.start_time == start_time
                &&& t.status == TournamentStatus::Registration
                &&& t.participants@.len() == 0
                &&& final(self).players == old(self).players
                &&& final(self).assets == old(self).assets
                &&& final(self).battles == old(self).battles
                &&& final(self).missions == old(self).missions
                &&& final(self).admin == old(self).admin
            },
    {
        if payment == 0 {
            return Err(GameError::PrizePoolRequired);
        }
        let n = self.tournaments.len() as u64;
        if n == u64::MAX {
            return Err(GameError::Overflow);
        }
        let t = Tournament {
            id: n + 1,
            name,
            organizer: caller,
            entry_fee,
            prize_pool: payment,
            max_participants,
            current_participants: 0,
            start_time,
            status: TournamentStatus::Registration,
            participants: Vec::new(),
        };
        let ghost before = self.tournaments@;
        self.tournaments.push(t);
        assert(self.tournaments@.subrange(0, n as int) =~= before);
        assert(forall|k: int| 0 <= k < n ==> self.tournaments@[k] == before[k]);
        Ok(n + 1)
    }

    /// A registered player joins an open tournament that has room, paying at
    /// least the entry fee; the payment goes to the prize pool.
    pub fn join_tournament(&mut self, caller: Address, tournament_id: u64, payment: u128) -> (r:
        Result<(), GameError>)
        requires
            old(self).wf(),
        ensures
            final(self).wf(),
            match join_refusal(*old(self), caller, tournament_id, payment) {
                Some(e) => r == Err::<(), GameError>(e) && *final(self) == *old(self),
                None => {
                    let k = tournament_id - 1;
                    let o = old(self).tournaments@[k];
                    let t = final(self).tournaments@[k];
                    &&& r is Ok
                    &&& final(self).tournaments@.len() == old(self).tournaments@.len()
                    &&& forall|j: int|
                        0 <= j < old(self).tournaments@.len() && j != k
                            ==> final(self).tournaments@[j] == old(self).tournaments@[j]
                    &&& t.id == o.id
                    &&& t.name == o.name
                    &&& t.organizer == o.organizer
                    &&& t.entry_fee == o.entry_fee
                    &&& t.prize_pool == o.prize_pool + payment
                    &&& t.max_participants == o.max_participants
                    &&& t.current_participants == o.current_participants + 1
                    &&& t.start_time == o.start_time
                    &&& t.status == o.status
                    &&& t.participants@ == o.participants@.push(caller)
                    &&& final(self).players == old(self).players
                    &&& final(self).assets == old(self).assets
                    &&& final(self).battles == old(self).battles
                    &&& final(self).missions == old(self).missions
                    &&& final(self).admin == old(self).admin
                },
            },
    {
        if tournament_id < 1 || tournament_id > self.tournaments.len() as u64 {
            return Err(GameError::TournamentNotFound);
        }
        if self.find_player(caller).is_none() {
            return Err(GameError::PlayerNotRegistered);
        }
        let k = (tournament_id - 1) as usize;
        let t = &self.tournaments[k];
        if t.status != TournamentStatus::Registration {
            return Err(GameError::RegistrationClosed);
        }
        if t.current_participants >= t.max_participants {
            return Err(GameError::TournamentFull);
        }
        if payment < t.entry_fee {
            return Err(GameError::InsufficientEntryFee);
        }
        if contains_address(&t.participants, caller) {
            return Err(GameError::AlreadyRegistered);
        }
        if t.prize_pool > u128::MAX - payment {
            return Err(GameError::Overflow);
        }
        let ghost before = self.tournaments@;
        let mut t = self.tournaments.remove(k);
        t.participants.push(caller);
        t.current_participants = t.current_participants + 1;
        t.prize_pool = t.prize_pool + payment;
        self.tournaments.insert(k, t);
        assert(self.tournaments@ =~= before.update(k as int, t));
        Ok(())
    }

    /// The tournament with the given id, if there is one.
    pub fn get_tournament(&self, tournament_id: u64) -> (r: Option<&Tournament>)
        ensures
            r.is_some() == (1 <= tournament_id <= self.tournaments@.len()),
            r.is_some() ==> *r.unwrap() == self.tournaments@[tournament_id - 1],
    {
        if tournament_id >= 1 && tournament_id <= self.tournaments.len() as u64 {
            Some(&self.tournaments[(tournament_id - 1) as usize])
        } else {
            None
        }
    }

    pub fn get_total_players(&self) -> (r: usize)
        ensures
            r == self.players@.len(),
    {
        self.players.len()
    }

    pub fn get_total_assets(&self) -> (r: usize)
        ensures
            r == self.assets@.len(),
    {
        self.assets.len()
    }

    pub fn get_total_tournaments(&self) -> (r: usize)
        ensures
            r == self.tournaments@.len(),
    {
        self.tournaments.len()
    }

    /// Counts of players, assets, tournaments, battles and catalog missions.
    pub fn get_platform_stats(&self) -> (r: PlatformStats)
        ensures
            r.total_players == self.players@.len(),
            r.total_assets == self.assets@.len(),
            r.total_tournaments == self.tournaments@.len(),
            r.total_battles == self.battles@.len(),
            r.total_missions == self.missions@.len(),
    {
        PlatformStats {
            total_players: self.get_total_players() as u64,
            total_assets: self.get_total_assets() as u64,
            total_tournaments: self.get_total_tournaments() as u64,
            total_battles: self.battles.len() as u64,
            total_missions: self.missions.len() as u64,
        }
    }
}

} // verus!
