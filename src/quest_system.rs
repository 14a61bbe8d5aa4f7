//! Mission catalog and quest engine: starting missions, completing
//! objectives and issuing rewards.

use vstd::prelude::*;
use crate::combat_system::{all_owned, contains_id};
use crate::levels::{calculate_level, floor_sqrt};
use crate::platform::{
    assets_wf, distinct_texts, lemma_count_push, lemma_ownership_kept, owned_count,
    registered_in, lemma_registrations_kept, player_level_u32, rarity_order, rarity_rank, Address, AssetType, CatalogEntry, GameAsset, GameError, PlayerRecord,
    Rarity, StardustContracts,
};

verus! {

#[derive(Clone, Copy, Debug, PartialEq, Eq, Structural)]
pub enum MissionStatus {
    Available,
    Active,
    Completed,
    Failed,
}

#[derive(Clone, Copy, Debug, PartialEq, Eq, Structural)]
pub enum ObjectiveType {
    CollectAssets,
    WinBattles,
    ReachLevel,
    JoinTournament,
    ExploreTerritory,
}

#[derive(Clone, Copy, Debug, PartialEq, Eq, Structural)]
pub enum RewardType {
    Experience,
    StardustPoints,
    Asset,
    Title,
}

#[derive(Debug)]
pub struct Objective {
    pub id: u64,
    pub description: String,
    pub objective_type: ObjectiveType,
    pub target_amount: u32,
}

#[derive(Debug)]
pub struct AssetTemplate {
    pub asset_type: AssetType,
    pub rarity: Rarity,
    pub name: String,
    pub description: String,
}

#[derive(Debug)]
pub struct Reward {
    pub reward_type: RewardType,
    pub amount: u64,
    pub asset_template: Option<AssetTemplate>,
    pub title: Option<String>,
}

#[derive(Clone, Copy, Debug, PartialEq, Eq, Structural)]
pub struct RequiredAsset {
    pub asset_type: AssetType,
    pub min_rarity: Rarity,
}

#[derive(Debug)]
pub struct MissionTemplate {
    pub id: u64,
    pub name: String,
    pub description: String,
    pub chapter: u32,
    pub required_level: u32,
    pub total_objectives: u32,
    pub prerequisites: Vec<u64>,
    pub required_assets: Vec<RequiredAsset>,
    pub objectives: Vec<Objective>,
    pub rewards: Vec<Reward>,
}

#[derive(Debug)]
pub struct PlayerMission {
    pub mission_id: u64,
    pub player: Address,
    pub status: MissionStatus,
    pub progress: u32,
    pub started_at: u64,
    pub objectives_completed: Vec<u64>,
}

} // verus!

verus! {

impl Reward {
    /// An asset reward names its template and a title reward its title.
    pub open spec fn wf(&self) -> bool {
        &&& self.reward_type == RewardType::Asset ==> self.asset_template is Some
        &&& self.reward_type == RewardType::Title ==> self.title is Some
    }
}

impl MissionTemplate {
    pub open spec fn wf(&self) -> bool {
        forall|k: int| 0 <= k < self.rewards@.len() ==> (#[trigger] self.rewards@[k]).wf()
    }

    /// Whether every reward carries the payload its kind needs.
    pub fn is_well_formed(&self) -> (r: bool)
        ensures
            r == self.wf(),
    {
        let mut i: usize = 0;
        while i < self.rewards.len()
            invariant
                i <= self.rewards@.len(),
                forall|k: int| 0 <= k < i ==> (#[trigger] self.rewards@[k]).wf(),
            decreases self.rewards@.len() - i,
        {
            let rw = &self.rewards[i];
            if rw.reward_type == RewardType::Asset && rw.asset_template.is_none() {
                return false;
            }
            if rw.reward_type == RewardType::Title && rw.title.is_none() {
                return false;
            }
            i = i + 1;
        }
        true
    }
}


impl PlayerRecord {
    pub open spec fn has_active(&self, m: u64) -> bool {
        exists|k: int|
            0 <= k < self.active_missions@.len() && self.active_missions@[k].mission_id == m
    }

    /// Position of the active instance of mission `m`.
    pub open spec fn active_index(&self, m: u64) -> int {
        choose|k: int| 0 <= k < self.active_missions@.len() && self.active_missions@[k].mission_id == m
    }

    pub fn find_active(&self, m: u64) -> (r: Option<usize>)
        requires
            self.wf(),
        ensures
            r.is_some() == self.has_active(m),
            r.is_some() ==> r.unwrap() == self.active_index(m),
    {
        let mut i: usize = 0;
        while i < self.active_missions.len()
            invariant
                self.wf(),
                i <= self.active_missions@.len(),
                forall|k: int| 0 <= k < i ==> self.active_missions@[k].mission_id != m,
            decreases self.active_missions@.len() - i,
        {
            if self.active_missions[i].mission_id == m {
                proof {
                    let j = self.active_index(m);
                    assert(0 <= j < self.active_missions@.len() && self.active_missions@[j].mission_id == m);
                    if j > i {
                        assert(self.active_missions@[i as int].mission_id != self.active_missions@[j].mission_id);
                    }
                }
                return Some(i);
            }
            i = i + 1;
        }
        None
    }
}

/// The player owns an asset of the required type with at least the required rarity.
pub open spec fn owns_matching(assets: Seq<GameAsset>, player: Address, req: RequiredAsset) -> bool {
    exists|k: int|
        0 <= k < assets.len() && assets[k].owner == player && assets[k].asset_type == req.asset_type
            && rarity_rank(assets[k].rarity) >= rarity_rank(req.min_rarity)
}

/// The first requirement of template `t` that the player fails, if any: the
/// level, then the prerequisite missions, then the required assets.
pub open spec fn requirement_refusal(assets: Seq<GameAsset>, rec: PlayerRecord, t: MissionTemplate) -> Option<
    GameError,
> {
    if rec.stats.level < t.required_level {
        Some(GameError::LevelRequirementNotMet)
    } else if exists|k: int|
        0 <= k < t.prerequisites@.len() && !rec.completed_missions@.contains(
            #[trigger] t.prerequisites@[k],
        ) {
        Some(GameError::PrerequisiteNotCompleted)
    } else if exists|k: int|
        0 <= k < t.required_assets@.len() && !owns_matching(
            assets,
            rec.address,
            #[trigger] t.required_assets@[k],
        ) {
        Some(GameError::RequiredAssetNotFound)
    } else {
        None
    }
}

/// The first check that starting mission `m` fails, if any.
pub open spec fn start_refusal(s: StardustContracts, caller: Address, m: u64) -> Option<GameError> {
    if !s.is_registered_spec(caller) {
        Some(GameError::PlayerNotRegistered)
    } else if s.player(caller).has_active(m) {
        Some(GameError::MissionAlreadyActive)
    } else if !s.has_mission(m) {
        Some(GameError::MissionNotFound)
    } else {
        requirement_refusal(s.assets@, s.player(caller), s.template_of(m))
    }
}

/// Players `n` equal players `o` but at index `i`.
pub open spec fn players_frame(o: Seq<PlayerRecord>, n: Seq<PlayerRecord>, i: int) -> bool {
    n.len() == o.len() && forall|k: int| 0 <= k < o.len() && k != i ==> n[k] == o[k]
}

impl StardustContracts {
    pub open spec fn has_mission(&self, m: u64) -> bool {
        exists|k: int| 0 <= k < self.missions@.len() && self.missions@[k].mission_id == m
    }

    pub open spec fn mission_index(&self, m: u64) -> int {
        choose|k: int| 0 <= k < self.missions@.len() && self.missions@[k].mission_id == m
    }

    /// The template of a mission in the catalog.
    pub open spec fn template_of(&self, m: u64) -> MissionTemplate {
        self.missions@[self.mission_index(m)].template
    }

    pub fn find_mission(&self, m: u64) -> (r: Option<usize>)
        requires
            self.wf(),
        ensures
            r.is_some() == self.has_mission(m),
            r.is_some() ==> r.unwrap() == self.mission_index(m),
    {
        let mut i: usize = 0;
        while i < self.missions.len()
            invariant
                self.wf(),
                i <= self.missions@.len(),
                forall|k: int| 0 <= k < i ==> self.missions@[k].mission_id != m,
            decreases self.missions@.len() - i,
        {
            if self.missions[i].mission_id == m {
                proof {
                    let j = self.mission_index(m);
                    assert(0 <= j < self.missions@.len() && self.missions@[j].mission_id == m);
                    if j > i {
                        assert(self.missions@[i as int].mission_id != self.missions@[j].mission_id);
                    }
                }
                return Some(i);
            }
            i = i + 1;
        }
        None
    }

    fn owns_matching_asset(&self, player: Address, req: RequiredAsset) -> (r: bool)
        ensures
            r == owns_matching(self.assets@, player, req),
    {
        let min = rarity_order(req.min_rarity);
        let mut i: usize = 0;
        while i < self.assets.len()
            invariant
                i <= self.assets@.len(),
                min == rarity_rank(req.min_rarity),
                forall|k: int|
                    0 <= k < i ==> !(self.assets@[k].owner == player && self.assets@[k].asset_type
                        == req.asset_type && rarity_rank(self.assets@[k].rarity) >= rarity_rank(
                        req.min_rarity,
                    )),
            decreases self.assets@.len() - i,
        {
            let a = &self.assets[i];
            if a.owner == player && a.asset_type == req.asset_type && rarity_order(a.rarity) >= min {
                return true;
            }
            i = i + 1;
        }
        false
    }

    /// Checks a player against a template's level, prerequisite and asset
    /// requirements, in that order.
    pub fn validate_mission_requirements(&self, rec: &PlayerRecord, t: &MissionTemplate) -> (r:
        Result<(), GameError>)
        ensures
            r == match requirement_refusal(self.assets@, *rec, *t) {
                Some(e) => Err::<(), GameError>(e),
                None => Ok(()),
            },
    {
        if rec.stats.level < t.required_level {
            return Err(GameError::LevelRequirementNotMet);
        }
        let mut i: usize = 0;
        while i < t.prerequisites.len()
            invariant
                rec.stats.level >= t.required_level,
                i <= t.prerequisites@.len(),
                forall|k: int|
                    0 <= k < i ==> rec.completed_missions@.contains(#[trigger] t.prerequisites@[k]),
            decreases t.prerequisites@.len() - i,
        {
            if !contains_id(&rec.completed_missions, t.prerequisites[i]) {
                assert(!rec.completed_missions@.contains(t.prerequisites@[i as int]));
                return Err(GameError::PrerequisiteNotCompleted);
            }
            i = i + 1;
        }
        let mut j: usize = 0;
        while j < t.required_assets.len()
            invariant
                rec.stats.level >= t.required_level,
                j <= t.required_assets@.len(),
                forall|k: int|
                    0 <= k < t.prerequisites@.len() ==> rec.completed_missions@.contains(
                        #[trigger] t.prerequisites@[k],
                    ),
                forall|k: int|
                    0 <= k < j ==> owns_matching(
                        self.assets@,
                        rec.address,
                        #[trigger] t.required_assets@[k],
                    ),
            decreases t.required_assets@.len() - j,
        {
            if !self.owns_matching_asset(rec.address, t.required_assets[j]) {
                assert(!owns_matching(self.assets@, rec.address, t.required_assets@[j as int]));
                return Err(GameError::RequiredAssetNotFound);
            }
            j = j + 1;
        }
        Ok(())
    }

    /// Starts mission `m` for the caller, when the caller is registered, does
    /// not have it active, and meets its requirements.
    pub fn start_mission(&mut self, caller: Address, mission_id: u64, now: u64) -> (r: Result<
        (),
        GameError,
    >)
        requires
            old(self).wf(),
        ensures
            final(self).wf(),
            match start_refusal(*old(self), caller, mission_id) {
                Some(e) => r == Err::<(), GameError>(e) && *final(self) == *old(self),
                None => {
                    let i = old(self).player_index(caller);
                    let o = old(self).players@[i];
                    let n = final(self).players@[i];
                    let len = o.active_missions@.len();
                    let pm = n.active_missions@[len as int];
                    &&& r is Ok
                    &&& players_frame(old(self).players@, final(self).players@, i)
                    &&& n.address == o.address
                    &&& n.stats == o.stats
                    &&& n.stardust_points == o.stardust_points
                    &&& n.titles == o.titles
                    &&& n.completed_missions == o.completed_missions
                    &&& n.active_missions@.len() == len + 1
                    &&& n.active_missions@.subrange(0, len as int) == o.active_missions@
                    &&& pm.mission_id == mission_id
                    &&& pm.player == caller
                    &&& pm.status == MissionStatus::Active
                    &&& pm.progress == 0
                    &&& pm.started_at == now
                    &&& pm.objectives_completed@.len() == 0
                    &&& final(self).assets == old(self).assets
                    &&& final(self).battles == old(self).battles
                    &&& final(self).tournaments == old(self).tournaments
                    &&& final(self).missions == old(self).missions
                    &&& final(self).admin == old(self).admin
                },
            },
    {
        let pi = match self.find_player(caller) {
            Some(i) => i,
            None => return Err(GameError::PlayerNotRegistered),
        };
        proof {
            assert(self.players@[pi as int].wf());
        }
        if self.players[pi].find_active(mission_id).is_some() {
            return Err(GameError::MissionAlreadyActive);
        }
        let mi = match self.find_mission(mission_id) {
            Some(i) => i,
            None => return Err(GameError::MissionNotFound),
        };
        let checked = self.validate_mission_requirements(
            &self.players[pi],
            &self.missions[mi].template,
        );
        if checked.is_err() {
            return checked;
        }
        let pm = PlayerMission {
            mission_id,
            player: caller,
            status: MissionStatus::Active,
            progress: 0,
            started_at: now,
            objectives_completed: Vec::new(),
        };
        let ghost before = self.players@;
        let mut rec = self.players.remove(pi);
        let ghost old_active = rec.active_missions@;
        rec.active_missions.push(pm);
        assert(rec.active_missions@.subrange(0, old_active.len() as int) =~= old_active);
        assert(before[pi as int].wf());
        assert(rec.active_unique()) by {
            assert forall|a: int, b: int|
                0 <= a < b < rec.active_missions@.len() implies rec.active_missions@[a].mission_id
                != rec.active_missions@[b].mission_id by {
                if b == old_active.len() {
                    assert(old_active[a].mission_id != mission_id);
                } else {
                    assert(before[pi as int].wf());
                }
            }
        }
        self.players.insert(pi, rec);
        assert(self.players@ =~= before.update(pi as int, rec));
        assert(forall|k: int|
            0 <= k < before.len() ==> #[trigger] self.players@[k].address == before[k].address);
        proof {
            lemma_ownership_kept(before, self.assets@, self.players@, self.assets@);
        }
        Ok(())
    }
}


/// What the reward dispatcher changes for one player: its experience, level,
/// asset count, points and titles, and the asset registry.
pub struct RewardLedger {
    pub experience: u64,
    pub level: u32,
    pub assets_owned: u32,
    pub points: u64,
    pub titles: Seq<String>,
    pub assets: Seq<GameAsset>,
}

/// `ts` as a set with `t` added: unchanged where a title with the same text is in it.
pub open spec fn titles_with(ts: Seq<String>, t: String) -> Seq<String> {
    if exists|k: int| 0 <= k < ts.len() && ts[k]@ == t@ {
        ts
    } else {
        ts.push(t)
    }
}

/// The asset that an asset reward mints: level 1, no experience.
pub open spec fn reward_asset(id: u64, owner: Address, t: AssetTemplate, now: u64) -> GameAsset {
    GameAsset {
        id,
        owner,
        asset_type: t.asset_type,
        rarity: t.rarity,
        name: t.name,
        description: t.description,
        created_at: now,
        level: 1,
        experience: 0,
    }
}

/// One reward applied to the ledger of `owner`; `None` where a counter or an
/// id would overflow.
pub open spec fn apply_reward(l: RewardLedger, owner: Address, r: Reward, now: u64) -> Option<
    RewardLedger,
> {
    match r.reward_type {
        RewardType::Experience => if l.experience + r.amount <= u64::MAX {
            Some(
                RewardLedger {
                    experience: (l.experience + r.amount) as u64,
                    level: player_level_u32((l.experience + r.amount) as u64),
                    ..l
                },
            )
        } else {
            None
        },
        RewardType::StardustPoints => if l.points + r.amount <= u64::MAX {
            Some(RewardLedger { points: (l.points + r.amount) as u64, ..l })
        } else {
            None
        },
        RewardType::Asset => if l.assets.len() < u64::MAX && l.assets_owned < u32::MAX {
            Some(
                RewardLedger {
                    assets_owned: (l.assets_owned + 1) as u32,
                    assets: l.assets.push(
                        reward_asset(
                            (l.assets.len() + 1) as u64,
                            owner,
                            r.asset_template.unwrap(),
                            now,
                        ),
                    ),
                    ..l
                },
            )
        } else {
            None
        },
        RewardType::Title => Some(RewardLedger { titles: titles_with(l.titles, r.title.unwrap()), ..l }),
    }
}

/// The rewards applied in their declared order.
pub open spec fn apply_rewards(l: RewardLedger, owner: Address, rs: Seq<Reward>, now: u64) -> Option<
    RewardLedger,
>
    decreases rs.len(),
{
    if rs.len() == 0 {
        Some(l)
    } else {
        match apply_reward(l, owner, rs[0], now) {
            Some(l2) => apply_rewards(l2, owner, rs.drop_first(), now),
            None => None,
        }
    }
}

/// An asset reward followed by a title reward keeps the minted asset.
pub proof fn lemma_title_after_asset_keeps_asset(
    l: RewardLedger,
    owner: Address,
    asset_reward: Reward,
    title_reward: Reward,
    now: u64,
)
    requires
        asset_reward.reward_type == RewardType::Asset,
        asset_reward.wf(),
        title_reward.reward_type == RewardType::Title,
        title_reward.wf(),
        l.assets.len() < u64::MAX,
        l.assets_owned < u32::MAX,
    ensures
        ({
            let r = apply_rewards(l, owner, seq![asset_reward, title_reward], now);
            &&& r is Some
            &&& r.unwrap().assets == l.assets.push(
                reward_asset(
                    (l.assets.len() + 1) as u64,
                    owner,
                    asset_reward.asset_template.unwrap(),
                    now,
                ),
            )
            &&& r.unwrap().assets_owned == l.assets_owned + 1
        }),
{
    let rs = seq![asset_reward, title_reward];
    assert(rs.drop_first() =~= seq![title_reward]);
    assert(seq![title_reward].drop_first() =~= Seq::<Reward>::empty());
    let l1 = apply_reward(l, owner, asset_reward, now).unwrap();
    let l2 = apply_reward(l1, owner, title_reward, now).unwrap();
    assert(apply_rewards(l2, owner, Seq::<Reward>::empty(), now) == Some(l2));
    assert(apply_rewards(l1, owner, seq![title_reward], now) == Some(l2));
    assert(apply_rewards(l, owner, rs, now) == Some(l2));
}

/// Whether a title with the same text as `t` is in `ts`.
pub fn contains_title(ts: &Vec<String>, t: &String) -> (r: bool)
    ensures
        r == exists|k: int| 0 <= k < ts@.len() && ts@[k]@ == t@,
{
    let mut i: usize = 0;
    while i < ts.len()
        invariant
            i <= ts@.len(),
            forall|k: int| 0 <= k < i ==> ts@[k]@ != t@,
        decreases ts@.len() - i,
    {
        if ts[i] == *t {
            return true;
        }
        i = i + 1;
    }
    false
}

/// Mints the asset of an asset reward for `owner`, with the next asset id.
pub fn mint_reward_asset(
    assets: &mut Vec<GameAsset>,
    assets_owned: &mut u32,
    owner: Address,
    template: &AssetTemplate,
    now: u64,
)
    requires
        old(assets)@.len() < u64::MAX,
        *old(assets_owned) < u32::MAX,
        assets_wf(old(assets)@),
    ensures
        assets_wf(final(assets)@),
        final(assets)@ == old(assets)@.push(
            reward_asset((old(assets)@.len() + 1) as u64, owner, *template, now),
        ),
        *final(assets_owned) == *old(assets_owned) + 1,
{
    let id = assets.len() as u64 + 1;
    let asset = GameAsset {
        id,
        owner,
        asset_type: template.asset_type,
        rarity: template.rarity,
        name: template.name.clone(),
        description: template.description.clone(),
        created_at: now,
        level: 1,
        experience: 0,
    };
    let ghost before = assets@;
    assets.push(asset);
    assert(forall|k: int| 0 <= k < before.len() ==> assets@[k] == before[k]);
    assert(floor_sqrt(0) == 0);
    *assets_owned = *assets_owned + 1;
}

/// Applies the rewards in order to the given ledger values; `false` where a
/// counter would overflow, in which case the values are unspecified.
fn apply_reward_list(
    rewards: &Vec<Reward>,
    owner: Address,
    now: u64,
    experience: &mut u64,
    level: &mut u32,
    assets_owned: &mut u32,
    points: &mut u64,
    titles: &mut Vec<String>,
    assets: &mut Vec<GameAsset>,
) -> (ok: bool)
    requires
        forall|k: int| 0 <= k < rewards@.len() ==> (#[trigger] rewards@[k]).wf(),
        *old(level) == player_level_u32(*old(experience)),
        distinct_texts(old(titles)@),
        assets_wf(old(assets)@),
        *old(assets_owned) == owned_count(old(assets)@, owner),
    ensures
        ok ==> *final(level) == player_level_u32(*final(experience)),
        ok ==> distinct_texts(final(titles)@),
        ok ==> assets_wf(final(assets)@),
        ok ==> *final(assets_owned) == owned_count(final(assets)@, owner),
        ok ==> final(assets)@.len() >= old(assets)@.len(),
        ok ==> forall|k: int| 0 <= k < old(assets)@.len() ==> final(assets)@[k] == old(assets)@[k],
        ok ==> forall|k: int|
            old(assets)@.len() <= k < final(assets)@.len() ==> final(assets)@[k].owner == owner,
        ok ==> forall|b: Address|
            b != owner ==> owned_count(final(assets)@, b) == owned_count(old(assets)@, b),
        ({
            let full = apply_rewards(
                RewardLedger {
                    experience: *old(experience),
                    level: *old(level),
                    assets_owned: *old(assets_owned),
                    points: *old(points),
                    titles: old(titles)@,
                    assets: old(assets)@,
                },
                owner,
                rewards@,
                now,
            );
            &&& ok == full is Some
            &&& ok ==> full.unwrap() == RewardLedger {
                experience: *final(experience),
                level: *final(level),
                assets_owned: *final(assets_owned),
                points: *final(points),
                titles: final(titles)@,
                assets: final(assets)@,
            }
        }),
{
    let ghost full = apply_rewards(
        RewardLedger {
            experience: *experience,
            level: *level,
            assets_owned: *assets_owned,
            points: *points,
            titles: titles@,
            assets: assets@,
        },
        owner,
        rewards@,
        now,
    );
    assert(rewards@.subrange(0, rewards@.len() as int) =~= rewards@);
    let mut i: usize = 0;
    while i < rewards.len()
        invariant
            i <= rewards@.len(),
            forall|k: int| 0 <= k < rewards@.len() ==> (#[trigger] rewards@[k]).wf(),
            *level == player_level_u32(*experience),
            distinct_texts(titles@),
            assets_wf(assets@),
            *assets_owned == owned_count(assets@, owner),
            assets@.len() >= old(assets)@.len(),
            forall|k: int| 0 <= k < old(assets)@.len() ==> assets@[k] == old(assets)@[k],
            forall|k: int| old(assets)@.len() <= k < assets@.len() ==> assets@[k].owner == owner,
            forall|b: Address| b != owner ==> owned_count(assets@, b) == owned_count(old(assets)@, b),
            full == apply_rewards(
                RewardLedger {
                    experience: *old(experience),
                    level: *old(level),
                    assets_owned: *old(assets_owned),
                    points: *old(points),
                    titles: old(titles)@,
                    assets: old(assets)@,
                },
                owner,
                rewards@,
                now,
            ),
            full == apply_rewards(
                RewardLedger {
                    experience: *experience,
                    level: *level,
                    assets_owned: *assets_owned,
                    points: *points,
                    titles: titles@,
                    assets: assets@,
                },
                owner,
                rewards@.subrange(i as int, rewards@.len() as int),
                now,
            ),
        decreases rewards@.len() - i,
    {
        let ghost rest = rewards@.subrange(i as int, rewards@.len() as int);
        assert(rest.drop_first() =~= rewards@.subrange(i + 1, rewards@.len() as int));
        assert(rest[0] == rewards@[i as int]);
        let rw = &rewards[i];
        assert(rw.wf());
        match rw.reward_type {
            RewardType::Experience => {
                if *experience > u64::MAX - rw.amount {
                    return false;
                }
                *experience = *experience + rw.amount;
                *level = calculate_level(*experience);
            },
            RewardType::StardustPoints => {
                if *points > u64::MAX - rw.amount {
                    return false;
                }
                *points = *points + rw.amount;
            },
            RewardType::Asset => {
                if assets.len() as u64 == u64::MAX || *assets_owned == u32::MAX {
                    return false;
                }
                match &rw.asset_template {
                    Some(t) => {
                        let ghost prev = assets@;
                        mint_reward_asset(assets, assets_owned, owner, t, now);
                        proof {
                            let x = assets@[prev.len() as int];
                            assert(assets@ == prev.push(x));
                            lemma_count_push(prev, x, owner);
                            assert forall|b: Address| b != owner implies owned_count(assets@, b)
                                == owned_count(old(assets)@, b) by {
                                lemma_count_push(prev, x, b);
                            }
                        }
                    },
                    None => {},
                }
            },
            RewardType::Title => {
                match &rw.title {
                    Some(t) => {
                        if !contains_title(titles, t) {
                            let ghost prev = titles@;
                            titles.push(t.clone());
                            assert(forall|k: int| 0 <= k < prev.len() ==> titles@[k] == prev[k]);
                        }
                    },
                    None => {},
                }
            },
        }
        i = i + 1;
    }
    assert(rewards@.subrange(i as int, rewards@.len() as int).len() == 0);
    true
}


/// The ledger values of a player record and the asset registry.
pub open spec fn ledger_of(rec: PlayerRecord, assets: Seq<GameAsset>) -> RewardLedger {
    RewardLedger {
        experience: rec.stats.experience,
        level: rec.stats.level,
        assets_owned: rec.stats.assets_owned,
        points: rec.stardust_points,
        titles: rec.titles@,
        assets,
    }
}

/// Achievements after completing a mission of `chapter`: finishing chapter 1
/// adds "Chapter 1 Complete" once.
pub open spec fn chapter_badge_added(o: Seq<String>, n: Seq<String>, chapter: u32) -> bool {
    if chapter == 1 && !(exists|k: int| 0 <= k < o.len() && o[k]@ == "Chapter 1 Complete"@) {
        &&& n.len() == o.len() + 1
        &&& n.subrange(0, o.len() as int) == o
        &&& n.last()@ == "Chapter 1 Complete"@
    } else {
        n == o
    }
}

/// Record `n` is record `o` after mission `m` (active at `ai`) completed with
/// the rewards giving ledger `l`.
pub open spec fn mission_completed(
    o: PlayerRecord,
    n: PlayerRecord,
    l: RewardLedger,
    chapter: u32,
    m: u64,
    ai: int,
) -> bool {
    &&& n.address == o.address
    &&& n.stats.experience == l.experience
    &&& n.stats.level == l.level
    &&& n.stats.assets_owned == l.assets_owned
    &&& n.stats.games_played == o.stats.games_played
    &&& n.stats.games_won == o.stats.games_won
    &&& chapter_badge_added(o.stats.achievements@, n.stats.achievements@, chapter)
    &&& n.stardust_points == l.points
    &&& n.titles@ == l.titles
    &&& n.active_missions@ == o.active_missions@.remove(ai)
    &&& n.completed_missions@ == if o.completed_missions@.contains(m) {
        o.completed_missions@
    } else {
        o.completed_missions@.push(m)
    }
}

/// Whether objective `o` is met by the player, with the proof assets given.
pub open spec fn objective_refusal(
    assets: Seq<GameAsset>,
    rec: PlayerRecord,
    o: Objective,
    proof: Seq<u64>,
) -> Option<GameError> {
    match o.objective_type {
        ObjectiveType::CollectAssets => if proof.len() < o.target_amount {
            Some(GameError::InsufficientAssetsCollected)
        } else if !all_owned(assets, rec.address, proof) {
            Some(GameError::AssetNotOwned)
        } else {
            None
        },
        ObjectiveType::WinBattles => if rec.stats.games_won < o.target_amount {
            Some(GameError::InsufficientBattlesWon)
        } else {
            None
        },
        ObjectiveType::ReachLevel => if rec.stats.level < o.target_amount {
            Some(GameError::LevelRequirementNotMet)
        } else {
            None
        },
        ObjectiveType::JoinTournament => if proof.len() == 0 {
            Some(GameError::TournamentProofRequired)
        } else {
            None
        },
        ObjectiveType::ExploreTerritory => if proof.len() == 0 {
            Some(GameError::ExplorationProofRequired)
        } else {
            None
        },
    }
}

/// The first check that completing objective `objective_id` (counted from 1)
/// of mission `m` fails, if any.
pub open spec fn objective_step_refusal(
    s: StardustContracts,
    caller: Address,
    m: u64,
    objective_id: u64,
    proof: Seq<u64>,
) -> Option<GameError> {
    if !s.is_registered_spec(caller) || !s.player(caller).has_active(m) {
        Some(GameError::MissionNotActive)
    } else {
        let rec = s.player(caller);
        let pm = rec.active_missions@[rec.active_index(m)];
        if pm.status != MissionStatus::Active {
            Some(GameError::MissionNotActive)
        } else if pm.objectives_completed@.contains(objective_id) {
            Some(GameError::ObjectiveAlreadyCompleted)
        } else if !s.has_mission(m) {
            Some(GameError::MissionNotFound)
        } else if !(1 <= objective_id <= s.template_of(m).objectives@.len()) {
            Some(GameError::ObjectiveNotFound)
        } else if objective_refusal(
            s.assets@,
            rec,
            s.template_of(m).objectives@[objective_id - 1],
            proof,
        ) is Some {
            objective_refusal(s.assets@, rec, s.template_of(m).objectives@[objective_id - 1], proof)
        } else if pm.progress == u32::MAX {
            Some(GameError::Overflow)
        } else {
            None
        }
    }
}

proof fn lemma_remove_keeps_unique(o: PlayerRecord, n: PlayerRecord, ai: int)
    requires
        o.active_unique(),
        0 <= ai < o.active_missions@.len(),
        n.active_missions@ == o.active_missions@.remove(ai),
    ensures
        n.active_unique(),
{
    assert forall|a: int, b: int|
        0 <= a < b < n.active_missions@.len() implies n.active_missions@[a].mission_id
        != n.active_missions@[b].mission_id by {
        let oa = if a < ai {
            a
        } else {
            a + 1
        };
        let ob = if b < ai {
            b
        } else {
            b + 1
        };
        assert(n.active_missions@[a] == o.active_missions@[oa]);
        assert(n.active_missions@[b] == o.active_missions@[ob]);
    }
}

impl StardustContracts {
    /// Checks one objective against the player's state and the proof assets.
    pub fn validate_objective_completion(
        &self,
        rec: &PlayerRecord,
        objective: &Objective,
        proof_assets: &Vec<u64>,
    ) -> (r: Result<(), GameError>)
        ensures
            r == match objective_refusal(self.assets@, *rec, *objective, proof_assets@) {
                Some(e) => Err::<(), GameError>(e),
                None => Ok(()),
            },
    {
        match objective.objective_type {
            ObjectiveType::CollectAssets => {
                if proof_assets.len() < objective.target_amount as usize {
                    return Err(GameError::InsufficientAssetsCollected);
                }
                if !self.all_owned_by(proof_assets, rec.address) {
                    return Err(GameError::AssetNotOwned);
                }
            },
            ObjectiveType::WinBattles => {
                if rec.stats.games_won < objective.target_amount {
                    return Err(GameError::InsufficientBattlesWon);
                }
            },
            ObjectiveType::ReachLevel => {
                if rec.stats.level < objective.target_amount {
                    return Err(GameError::LevelRequirementNotMet);
                }
            },
            ObjectiveType::JoinTournament => {
                if proof_assets.len() == 0 {
                    return Err(GameError::TournamentProofRequired);
                }
            },
            ObjectiveType::ExploreTerritory => {
                if proof_assets.len() == 0 {
                    return Err(GameError::ExplorationProofRequired);
                }
            },
        }
        Ok(())
    }

    /// Issues the rewards of catalog entry `mi` to player `pi` in declared
    /// order, adds the chapter 1 achievement once, and moves the mission from
    /// the active to the completed set. All or nothing.
    fn complete_mission(&mut self, pi: usize, ai: usize, mi: usize, now: u64) -> (r: Result<
        (),
        GameError,
    >)
        requires
            old(self).wf(),
            pi < old(self).players@.len(),
            ai < old(self).players@[pi as int].active_missions@.len(),
            mi < old(self).missions@.len(),
        ensures
            final(self).wf(),
            ({
                let o = old(self).players@[pi as int];
                let t = old(self).missions@[mi as int].template;
                let m = old(self).missions@[mi as int].mission_id;
                match apply_rewards(ledger_of(o, old(self).assets@), o.address, t.rewards@, now) {
                    None => r == Err::<(), GameError>(GameError::Overflow) && *final(self)
                        == *old(self),
                    Some(l) => {
                        &&& r is Ok
                        &&& players_frame(old(self).players@, final(self).players@, pi as int)
                        &&& mission_completed(
                            o,
                            final(self).players@[pi as int],
                            l,
                            t.chapter,
                            m,
                            ai as int,
                        )
                        &&& final(self).assets@ == l.assets
                        &&& final(self).battles == old(self).battles
                        &&& final(self).tournaments == old(self).tournaments
                        &&& final(self).missions == old(self).missions
                        &&& final(self).admin == old(self).admin
                    },
                }
            }),
    {
        let mission_id = self.missions[mi].mission_id;
        let chapter = self.missions[mi].template.chapter;
        let owner = self.players[pi].address;
        let mut experience = self.players[pi].stats.experience;
        let mut level = self.players[pi].stats.level;
        let mut assets_owned = self.players[pi].stats.assets_owned;
        let mut points = self.players[pi].stardust_points;
        let mut titles = self.players[pi].titles.clone();
        assert(titles@ =~= self.players@[pi as int].titles@);
        let mut assets = self.assets.clone();
        assert(assets@ =~= self.assets@);
        proof {
            assert(self.missions@[mi as int].template.wf());
        }
        if !apply_reward_list(
            &self.missions[mi].template.rewards,
            owner,
            now,
            &mut experience,
            &mut level,
            &mut assets_owned,
            &mut points,
            &mut titles,
            &mut assets,
        ) {
            return Err(GameError::Overflow);
        }
        let ghost before = self.players@;
        let mut rec = self.players.remove(pi);
        let ghost o = rec;
        rec.stats.experience = experience;
        rec.stats.level = level;
        rec.stats.assets_owned = assets_owned;
        rec.stardust_points = points;
        rec.titles = titles;
        if chapter == 1 {
            let badge = String::from_str("Chapter 1 Complete");
            if !contains_title(&rec.stats.achievements, &badge) {
                let ghost prev = rec.stats.achievements@;
                rec.stats.achievements.push(badge);
                assert(rec.stats.achievements@.subrange(0, prev.len() as int) =~= prev);
            }
        }
        rec.active_missions.remove(ai);
        if !contains_id(&rec.completed_missions, mission_id) {
            let ghost prev = rec.completed_missions@;
            rec.completed_missions.push(mission_id);
            assert(forall|k: int| 0 <= k < prev.len() ==> rec.completed_missions@[k] == prev[k]);
        }
        proof {
            assert(before[pi as int].wf());
            lemma_remove_keeps_unique(o, rec, ai as int);
        }
        self.players.insert(pi, rec);
        assert(self.players@ =~= before.update(pi as int, rec));
        assert(forall|k: int|
            0 <= k < before.len() && k != pi ==> #[trigger] self.players@[k] == before[k]);
        let ghost oa = self.assets@;
        self.assets = assets;
        proof {
            let np = self.players@;
            let na = self.assets@;
            lemma_registrations_kept(before, np);
            assert forall|k: int| 0 <= k < na.len() implies registered_in(np, (#[trigger] na[k]).owner) by {
                if k < oa.len() {
                    assert(registered_in(before, oa[k].owner));
                } else {
                    assert(np[pi as int].address == owner);
                }
            }
            assert forall|j: int| 0 <= j < np.len() implies (#[trigger] np[j]).stats.assets_owned
                == owned_count(na, np[j].address) by {
                if j != pi {
                    if j < pi {
                        assert(before[j].address != before[pi as int].address);
                    } else {
                        assert(before[pi as int].address != before[j].address);
                    }
                }
            }
        }
        Ok(())
    }

    /// Records objective `objective_id` (counted from 1) of an active mission
    /// of the caller and advances its progress by one; once progress reaches
    /// the template's objective count the mission completes in the same call.
    pub fn complete_objective(
        &mut self,
        caller: Address,
        mission_id: u64,
        objective_id: u64,
        proof_assets: Vec<u64>,
        now: u64,
    ) -> (r: Result<(), GameError>)
        requires
            old(self).wf(),
        ensures
            final(self).wf(),
            match objective_step_refusal(
                *old(self),
                caller,
                mission_id,
                objective_id,
                proof_assets@,
            ) {
                Some(e) => r == Err::<(), GameError>(e) && *final(self) == *old(self),
                None => {
                    let pi = old(self).player_index(caller);
                    let o = old(self).players@[pi];
                    let ai = o.active_index(mission_id);
                    let pm = o.active_missions@[ai];
                    let t = old(self).template_of(mission_id);
                    if pm.progress + 1 < t.total_objectives {
                        let n = final(self).players@[pi];
                        let q = n.active_missions@[ai];
                        &&& r is Ok
                        &&& players_frame(old(self).players@, final(self).players@, pi)
                        &&& n.address == o.address
                        &&& n.stats == o.stats
                        &&& n.stardust_points == o.stardust_points
                        &&& n.titles == o.titles
                        &&& n.completed_missions == o.completed_missions
                        &&& n.active_missions@.len() == o.active_missions@.len()
                        &&& forall|k: int|
                            0 <= k < o.active_missions@.len() && k != ai
                                ==> n.active_missions@[k] == o.active_missions@[k]
                        &&& q.mission_id == pm.mission_id
                        &&& q.player == pm.player
                        &&& q.status == pm.status
                        &&& q.started_at == pm.started_at
                        &&& q.progress == pm.progress + 1
                        &&& q.objectives_completed@ == pm.objectives_completed@.push(objective_id)
                        &&& final(self).assets == old(self).assets
                        &&& final(self).battles == old(self).battles
                        &&& final(self).tournaments == old(self).tournaments
                        &&& final(self).missions == old(self).missions
                        &&& final(self).admin == old(self).admin
                    } else {
                        match apply_rewards(ledger_of(o, old(self).assets@), caller, t.rewards@, now) {
                            None => r == Err::<(), GameError>(GameError::Overflow) && *final(self)
                                == *old(self),
                            Some(l) => {
                                &&& r is Ok
                                &&& players_frame(old(self).players@, final(self).players@, pi)
                                &&& mission_completed(
                                    o,
                                    final(self).players@[pi],
                                    l,
                                    t.chapter,
                                    mission_id,
                                    ai,
                                )
                                &&& final(self).assets@ == l.assets
                                &&& final(self).battles == old(self).battles
                                &&& final(self).tournaments == old(self).tournaments
                                &&& final(self).missions == old(self).missions
                                &&& final(self).admin == old(self).admin
                            },
                        }
                    }
                },
            },
    {
        let pi = match self.find_player(caller) {
            Some(i) => i,
            None => return Err(GameError::MissionNotActive),
        };
        proof {
            assert(self.players@[pi as int].wf());
        }
        let ai = match self.players[pi].find_active(mission_id) {
            Some(i) => i,
            None => return Err(GameError::MissionNotActive),
        };
        if self.players[pi].active_missions[ai].status != MissionStatus::Active {
            return Err(GameError::MissionNotActive);
        }
        if contains_id(&self.players[pi].active_missions[ai].objectives_completed, objective_id) {
            return Err(GameError::ObjectiveAlreadyCompleted);
        }
        let mi = match self.find_mission(mission_id) {
            Some(i) => i,
            None => return Err(GameError::MissionNotFound),
        };
        if objective_id < 1 || objective_id > self.missions[mi].template.objectives.len() as u64 {
            return Err(GameError::ObjectiveNotFound);
        }
        let checked = self.validate_objective_completion(
            &self.players[pi],
            &self.missions[mi].template.objectives[(objective_id - 1) as usize],
            &proof_assets,
        );
        if checked.is_err() {
            return checked;
        }
        let progress = self.players[pi].active_missions[ai].progress;
        if progress == u32::MAX {
            return Err(GameError::Overflow);
        }
        if progress + 1 >= self.missions[mi].template.total_objectives {
            self.complete_mission(pi, ai, mi, now)
        } else {
            let ghost before = self.players@;
            let mut rec = self.players.remove(pi);
            let ghost o = rec;
            let mut pm = rec.active_missions.remove(ai);
            pm.objectives_completed.push(objective_id);
            pm.progress = progress + 1;
            rec.active_missions.insert(ai, pm);
            assert(rec.active_missions@ =~= o.active_missions@.update(ai as int, pm));
            assert(o.wf());
            assert(rec.active_unique()) by {
                assert forall|a: int, b: int|
                    0 <= a < b < rec.active_missions@.len() implies rec.active_missions@[a].mission_id
                    != rec.active_missions@[b].mission_id by {
                    assert(o.active_missions@[a].mission_id != o.active_missions@[b].mission_id);
                }
            }
            self.players.insert(pi, rec);
            assert(self.players@ =~= before.update(pi as int, rec));
            assert(forall|k: int|
                0 <= k < before.len() ==> #[trigger] self.players@[k].address == before[k].address);
            proof {
                lemma_ownership_kept(before, self.assets@, self.players@, self.assets@);
            }
            Ok(())
        }
    }
}


/// Every prerequisite of `t` is in the player's completed set.
pub open spec fn prerequisites_met(rec: PlayerRecord, t: MissionTemplate) -> bool {
    forall|k: int|
        0 <= k < t.prerequisites@.len() ==> rec.completed_missions@.contains(
            #[trigger] t.prerequisites@[k],
        )
}

/// A catalog entry that the player could start now.
pub open spec fn is_available(rec: PlayerRecord, e: CatalogEntry) -> bool {
    &&& !rec.completed_missions@.contains(e.mission_id)
    &&& !rec.has_active(e.mission_id)
    &&& rec.stats.level >= e.template.required_level
    &&& prerequisites_met(rec, e.template)
}

/// The ids of the available catalog entries, in catalog order.
pub open spec fn available_of(entries: Seq<CatalogEntry>, rec: PlayerRecord) -> Seq<u64>
    decreases entries.len(),
{
    if entries.len() == 0 {
        Seq::empty()
    } else {
        let rest = available_of(entries.drop_last(), rec);
        if is_available(rec, entries.last()) {
            rest.push(entries.last().mission_id)
        } else {
            rest
        }
    }
}

fn check_prerequisites(rec: &PlayerRecord, t: &MissionTemplate) -> (r: bool)
    ensures
        r == prerequisites_met(*rec, *t),
{
    let mut i: usize = 0;
    while i < t.prerequisites.len()
        invariant
            i <= t.prerequisites@.len(),
            forall|k: int|
                0 <= k < i ==> rec.completed_missions@.contains(#[trigger] t.prerequisites@[k]),
        decreases t.prerequisites@.len() - i,
    {
        if !contains_id(&rec.completed_missions, t.prerequisites[i]) {
            assert(!rec.completed_missions@.contains(t.prerequisites@[i as int]));
            return false;
        }
        i = i + 1;
    }
    true
}

fn text(s: &str) -> (r: String)
    ensures
        r@ == s@,
{
    String::from_str(s)
}

impl StardustContracts {
    /// Stores `template` under `mission_id`, replacing any template already there.
    pub fn create_mission_template(&mut self, mission_id: u64, template: MissionTemplate)
        requires
            old(self).wf(),
            template.wf(),
        ensures
            final(self).wf(),
            old(self).has_mission(mission_id) ==> final(self).missions@ == old(self).missions@.update(
                old(self).mission_index(mission_id),
                CatalogEntry { mission_id, template },
            ),
            !old(self).has_mission(mission_id) ==> final(self).missions@ == old(self).missions@.push(
                CatalogEntry { mission_id, template },
            ),
            final(self).players == old(self).players,
            final(self).assets == old(self).assets,
            final(self).battles == old(self).battles,
            final(self).tournaments == old(self).tournaments,
            final(self).admin == old(self).admin,
    {
        let ghost before = self.missions@;
        let entry = CatalogEntry { mission_id, template };
        match self.find_mission(mission_id) {
            Some(i) => {
                self.missions.remove(i);
                self.missions.insert(i, entry);
                assert(self.missions@ =~= before.update(i as int, entry));
                assert(forall|k: int|
                    0 <= k < before.len() ==> #[trigger] self.missions@[k].mission_id
                        == before[k].mission_id);
            },
            None => {
                self.missions.push(entry);
                assert(forall|k: int| 0 <= k < before.len() ==> self.missions@[k] == before[k]);
            },
        }
    }

    /// The administrator loads the chapter 1 mission "Training Academy" under id 1.
    pub fn initialize_chapter_missions(&mut self, caller: Address) -> (r: Result<(), GameError>)
        requires
            old(self).wf(),
        ensures
            final(self).wf(),
            caller != old(self).admin ==> r == Err::<(), GameError>(GameError::NotAdmin)
                && *final(self) == *old(self),
            caller == old(self).admin ==> {
                let t = final(self).template_of(1);
                &&& r is Ok
                &&& final(self).has_mission(1)
                &&& t.id == 1
                &&& t.name@ == "Training Academy"@
                &&& t.chapter == 1
                &&& t.required_level == 1
                &&& t.total_objectives == 3
                &&& t.prerequisites@.len() == 0
                &&& t.required_assets@.len() == 0
                &&& t.objectives@.len() == 3
                &&& t.objectives@[0].id == 1
                &&& t.objectives@[0].description@ == "Mint your first Common asset"@
                &&& t.objectives@[1].id == 2
                &&& t.objectives@[1].description@ == "Win a practice battle"@
                &&& t.objectives@[2].id == 3
                &&& t.objectives@[2].description@ == "Reach Level 2"@
                &&& t.description@ == "Complete your training as a Stardust Engineer"@
                &&& t.rewards@[1].asset_template.unwrap().description@
                    == "A blade forged for new Engineers"@
                &&& t.objectives@[0].objective_type == ObjectiveType::CollectAssets
                &&& t.objectives@[0].target_amount == 1
                &&& t.objectives@[1].objective_type == ObjectiveType::WinBattles
                &&& t.objectives@[1].target_amount == 1
                &&& t.objectives@[2].objective_type == ObjectiveType::ReachLevel
                &&& t.objectives@[2].target_amount == 2
                &&& t.rewards@.len() == 3
                &&& t.rewards@[0].reward_type == RewardType::Experience
                &&& t.rewards@[0].amount == 200
                &&& t.rewards@[1].reward_type == RewardType::Asset
                &&& t.rewards@[1].asset_template is Some
                &&& t.rewards@[1].asset_template.unwrap().asset_type == AssetType::Weapon
                &&& t.rewards@[1].asset_template.unwrap().rarity == Rarity::Rare
                &&& t.rewards@[1].asset_template.unwrap().name@ == "Training Blade"@
                &&& t.rewards@[2].reward_type == RewardType::Title
                &&& t.rewards@[2].title is Some
                &&& t.rewards@[2].title.unwrap()@ == "Rookie Engineer"@
                &&& final(self).players == old(self).players
                &&& final(self).assets == old(self).assets
                &&& final(self).battles == old(self).battles
                &&& final(self).tournaments == old(self).tournaments
                &&& final(self).admin == old(self).admin
            },
    {
        let admin = self.require_caller_is_admin(caller);
        if admin.is_err() {
            return admin;
        }
        let mut objectives: Vec<Objective> = Vec::new();
        objectives.push(
            Objective {
                id: 1,
                description: text("Mint your first Common asset"),
                objective_type: ObjectiveType::CollectAssets,
                target_amount: 1,
            },
        );
        objectives.push(
            Objective {
                id: 2,
                description: text("Win a practice battle"),
                objective_type: ObjectiveType::WinBattles,
                target_amount: 1,
            },
        );
        objectives.push(
            Objective {
                id: 3,
                description: text("Reach Level 2"),
                objective_type: ObjectiveType::ReachLevel,
                target_amount: 2,
            },
        );
        let mut rewards: Vec<Reward> = Vec::new();
        rewards.push(
            Reward {
                reward_type: RewardType::Experience,
                amount: 200,
                asset_template: None,
                title: None,
            },
        );
        rewards.push(
            Reward {
                reward_type: RewardType::Asset,
                amount: 1,
                asset_template: Some(
                    AssetTemplate {
                        asset_type: AssetType::Weapon,
                        rarity: Rarity::Rare,
                        name: text("Training Blade"),
                        description: text("A blade forged for new Engineers"),
                    },
                ),
                title: None,
            },
        );
        rewards.push(
            Reward {
                reward_type: RewardType::Title,
                amount: 1,
                asset_template: None,
                title: Some(text("Rookie Engineer")),
            },
        );
        let template = MissionTemplate {
            id: 1,
            name: text("Training Academy"),
            description: text("Complete your training as a Stardust Engineer"),
            chapter: 1,
            required_level: 1,
            total_objectives: 3,
            prerequisites: Vec::new(),
            required_assets: Vec::new(),
            objectives,
            rewards,
        };
        let ghost tv = template;
        assert(tv.wf());
        self.create_mission_template(1, template);
        proof {
            let k = if old(self).has_mission(1) {
                old(self).mission_index(1)
            } else {
                old(self).missions@.len() as int
            };
            assert(self.missions@[k].mission_id == 1);
            let j = self.mission_index(1);
            if j != k {
                if j < k {
                    assert(self.missions@[j].mission_id != self.missions@[k].mission_id);
                } else {
                    assert(self.missions@[k].mission_id != self.missions@[j].mission_id);
                }
            }
        }
        Ok(())
    }

    /// The template of a mission, if the catalog holds it.
    pub fn get_mission_template(&self, mission_id: u64) -> (r: Option<&MissionTemplate>)
        requires
            self.wf(),
        ensures
            r.is_some() == self.has_mission(mission_id),
            r.is_some() ==> *r.unwrap() == self.template_of(mission_id),
    {
        match self.find_mission(mission_id) {
            Some(i) => Some(&self.missions[i].template),
            None => None,
        }
    }

    /// The template of a mission, if the catalog holds it.
    pub fn get_mission_details(&self, mission_id: u64) -> (r: Option<&MissionTemplate>)
        requires
            self.wf(),
        ensures
            r.is_some() == self.has_mission(mission_id),
            r.is_some() ==> *r.unwrap() == self.template_of(mission_id),
    {
        self.get_mission_template(mission_id)
    }

    /// The active mission instances of a registered player.
    pub fn get_player_missions(&self, player: Address) -> (r: Option<&Vec<PlayerMission>>)
        requires
            self.wf(),
        ensures
            r.is_some() == self.is_registered_spec(player),
            r.is_some() ==> r.unwrap()@ == self.player(player).active_missions@,
    {
        match self.find_player(player) {
            Some(i) => Some(&self.players[i].active_missions),
            None => None,
        }
    }

    /// Ids of the catalog missions that a registered player could start now:
    /// not completed, not active, level met and all prerequisites completed.
    pub fn get_available_missions(&self, player: Address) -> (r: Option<Vec<u64>>)
        requires
            self.wf(),
        ensures
            r.is_some() == self.is_registered_spec(player),
            r.is_some() ==> r.unwrap()@ == available_of(self.missions@, self.player(player)),
    {
        let pi = match self.find_player(player) {
            Some(i) => i,
            None => return None,
        };
        let rec = &self.players[pi];
        proof {
            assert(self.players@[pi as int].wf());
        }
        let mut out: Vec<u64> = Vec::new();
        let mut i: usize = 0;
        while i < self.missions.len()
            invariant
                rec.wf(),
                *rec == self.player(player),
                i <= self.missions@.len(),
                out@ == available_of(self.missions@.subrange(0, i as int), *rec),
            decreases self.missions@.len() - i,
        {
            assert(self.missions@.subrange(0, i + 1).drop_last() =~= self.missions@.subrange(
                0,
                i as int,
            ));
            let e = &self.missions[i];
            if !contains_id(&rec.completed_missions, e.mission_id) && rec.find_active(
                e.mission_id,
            ).is_none() && rec.stats.level >= e.template.required_level && check_prerequisites(
                rec,
                &e.template,
            ) {
                out.push(e.mission_id);
            }
            i = i + 1;
        }
        assert(self.missions@.subrange(0, self.missions@.len() as int) =~= self.missions@);
        Some(out)
    }
}


/// An objective already recorded for an active mission is refused, so
/// `complete_objective` leaves progress and the completed set unchanged.
pub proof fn lemma_objective_credited_once(
    s: StardustContracts,
    caller: Address,
    m: u64,
    objective_id: u64,
    proof: Seq<u64>,
)
    requires
        s.is_registered_spec(caller),
        s.player(caller).has_active(m),
        s.player(caller).active_missions@[s.player(caller).active_index(
            m,
        )].objectives_completed@.contains(objective_id),
    ensures
        objective_step_refusal(s, caller, m, objective_id, proof) is Some,
{
}

/// A mission with a prerequisite outside the caller's completed set cannot be
/// started, so `start_mission` creates no instance.
pub proof fn lemma_prerequisite_gates_start(s: StardustContracts, caller: Address, m: u64, k: int)
    requires
        s.is_registered_spec(caller),
        s.has_mission(m),
        0 <= k < s.template_of(m).prerequisites@.len(),
        !s.player(caller).completed_missions@.contains(s.template_of(m).prerequisites@[k]),
    ensures
        start_refusal(s, caller, m) is Some,
{
    let t = s.template_of(m);
    assert(!s.player(caller).completed_missions@.contains(t.prerequisites@[k]));
}

} // verus!
