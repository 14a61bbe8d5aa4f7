//! Battle engine: challenge, accept, alternating turns and resolution.

use vstd::prelude::*;
use crate::levels::{asset_level_spec, calculate_asset_level, calculate_level};
use crate::platform::{
    lemma_ownership_kept, assets_wf, asset_exists, asset_power_spec, calculate_asset_power, lemma_power_bounded, owns_asset,
    player_level_u32, power_cap, Address, GameError, GameAsset, PlayerRecord, PlayerStats, StardustContracts,
};

verus! {

#[derive(Clone, Copy, Debug, PartialEq, Eq, Structural)]
pub enum BattleType {
    Casual,
    Ranked,
    Tournament,
    Guild,
}

#[derive(Clone, Copy, Debug, PartialEq, Eq, Structural)]
pub enum BattleStatus {
    WaitingForDefender,
    Active,
    Completed,
    Cancelled,
}

#[derive(Clone, Copy, Debug, PartialEq, Eq, Structural)]
pub enum MoveType {
    Attack,
    Defend,
    Special,
    Combo,
}

/// One move of a battle; append-only in the battle's log.
#[derive(Clone, Copy, Debug, PartialEq, Eq, Structural)]
pub struct BattleMove {
    pub turn: u32,
    pub player: Address,
    pub asset_id: u64,
    pub move_type: MoveType,
    pub target_asset: Option<u64>,
    pub timestamp: u64,
}

#[derive(Debug)]
pub struct Battle {
    pub id: u64,
    pub attacker: Address,
    pub defender: Address,
    pub attacker_assets: Vec<u64>,
    pub defender_assets: Vec<u64>,
    pub battle_type: BattleType,
    pub status: BattleStatus,
    pub turn: u32,
    pub created_at: u64,
    pub moves: Vec<BattleMove>,
}

impl Battle {
    /// The battle stored at position `k`: id `k + 1`, at most three assets a
    /// side, one turn per logged move, and a turn of at most 10 until it ends.
    pub open spec fn wf_at(&self, k: int) -> bool {
        &&& self.id == k + 1
        &&& self.attacker_assets@.len() <= 3
        &&& self.defender_assets@.len() <= 3
        &&& self.turn == self.moves@.len() + 1
        &&& (self.status == BattleStatus::WaitingForDefender || self.status == BattleStatus::Active)
            ==> self.turn <= 10
    }
}

} // verus!

verus! {

pub open spec fn move_value(m: MoveType) -> int {
    match m {
        MoveType::Attack => 10,
        MoveType::Defend => 5,
        MoveType::Special => 15,
        MoveType::Combo => 20,
    }
}

/// Sum of the move values of the moves that `player` made.
pub open spec fn move_bonus_spec(moves: Seq<BattleMove>, player: Address) -> int
    decreases moves.len(),
{
    if moves.len() == 0 {
        0
    } else {
        move_bonus_spec(moves.drop_last(), player) + if moves.last().player == player {
            move_value(moves.last().move_type)
        } else {
            0
        }
    }
}

/// Power of the asset with id `id`; an id without an asset counts nothing.
pub open spec fn power_of_id(assets: Seq<GameAsset>, id: u64) -> int {
    if asset_exists(assets, id) {
        asset_power_spec(assets[id - 1])
    } else {
        0
    }
}

/// Sum of the powers of the listed assets.
pub open spec fn side_power_spec(assets: Seq<GameAsset>, ids: Seq<u64>) -> int
    decreases ids.len(),
{
    if ids.len() == 0 {
        0
    } else {
        side_power_spec(assets, ids.drop_last()) + power_of_id(assets, ids.last())
    }
}

/// Winner of a battle: the side with the greater total power, where a tie
/// goes to the attacker.
pub open spec fn winner_spec(
    assets: Seq<GameAsset>,
    attacker: Address,
    defender: Address,
    attacker_assets: Seq<u64>,
    defender_assets: Seq<u64>,
    moves: Seq<BattleMove>,
) -> Address {
    let a = side_power_spec(assets, attacker_assets) + move_bonus_spec(moves, attacker);
    let d = side_power_spec(assets, defender_assets) + move_bonus_spec(moves, defender);
    if a >= d {
        attacker
    } else {
        defender
    }
}

pub open spec fn battle_winner_spec(assets: Seq<GameAsset>, b: Battle) -> Address {
    winner_spec(assets, b.attacker, b.defender, b.attacker_assets@, b.defender_assets@, b.moves@)
}

/// Experience, games played and games won that a battle result adds.
pub open spec fn stats_after_battle(s: PlayerStats, won: bool) -> PlayerStats {
    let gain: u64 = if won { 100 } else { 25 };
    PlayerStats {
        experience: (s.experience + gain) as u64,
        level: player_level_u32((s.experience + gain) as u64),
        games_played: (s.games_played + 1) as u32,
        games_won: if won { (s.games_won + 1) as u32 } else { s.games_won },
        ..s
    }
}

pub open spec fn battle_stats_fit(s: PlayerStats, won: bool) -> bool {
    &&& s.experience + (if won { 100int } else { 25int }) <= u64::MAX
    &&& s.games_played + 1 <= u32::MAX
    &&& won ==> s.games_won + 1 <= u32::MAX
}

pub open spec fn with_stats(r: PlayerRecord, s: PlayerStats) -> PlayerRecord {
    PlayerRecord { stats: s, ..r }
}

/// Players after the winner's and then the loser's stats are updated.
pub open spec fn players_after_battle(players: Seq<PlayerRecord>, iw: int, il: int) -> Seq<
    PlayerRecord,
> {
    let p1 = players.update(iw, with_stats(players[iw], stats_after_battle(players[iw].stats, true)));
    p1.update(il, with_stats(p1[il], stats_after_battle(p1[il].stats, false)))
}

pub open spec fn battle_players_fit(players: Seq<PlayerRecord>, iw: int, il: int) -> bool {
    let p1 = players.update(iw, with_stats(players[iw], stats_after_battle(players[iw].stats, true)));
    battle_stats_fit(players[iw].stats, true) && battle_stats_fit(p1[il].stats, false)
}

pub open spec fn asset_with_experience(a: GameAsset, gain: u64) -> GameAsset {
    GameAsset {
        experience: (a.experience + gain) as u64,
        level: asset_level_spec((a.experience + gain) as u64) as u32,
        ..a
    }
}

/// Grants `gain` experience to each listed asset in turn, recomputing its
/// level; `None` where an experience counter would overflow.
pub open spec fn grant_asset_experience_spec(assets: Seq<GameAsset>, ids: Seq<u64>, gain: u64) -> Option<
    Seq<GameAsset>,
>
    decreases ids.len(),
{
    if ids.len() == 0 {
        Some(assets)
    } else {
        let id = ids[0];
        if asset_exists(assets, id) {
            if assets[id - 1].experience + gain <= u64::MAX {
                grant_asset_experience_spec(
                    assets.update(id - 1, asset_with_experience(assets[id - 1], gain)),
                    ids.drop_first(),
                    gain,
                )
            } else {
                None
            }
        } else {
            grant_asset_experience_spec(assets, ids.drop_first(), gain)
        }
    }
}

pub open spec fn side_gain(won: bool) -> u64 {
    if won {
        50
    } else {
        10
    }
}

/// Assets after a battle: first the attacker's, then the defender's.
pub open spec fn assets_after_battle(assets: Seq<GameAsset>, b: Battle, winner: Address) -> Option<
    Seq<GameAsset>,
> {
    match grant_asset_experience_spec(assets, b.attacker_assets@, side_gain(winner == b.attacker)) {
        Some(a1) => grant_asset_experience_spec(
            a1,
            b.defender_assets@,
            side_gain(winner == b.defender),
        ),
        None => None,
    }
}

pub open spec fn loser_of(b: Battle, winner: Address) -> Address {
    if winner == b.attacker {
        b.defender
    } else {
        b.attacker
    }
}

/// Whether a battle whose turn counter and log have these values ends.
pub open spec fn battle_ends(turn: int, n_moves: int) -> bool {
    turn > 10 || n_moves >= 20
}

/// Whether the listed assets exist and all belong to `owner`.
pub open spec fn all_owned(assets: Seq<GameAsset>, owner: Address, ids: Seq<u64>) -> bool {
    forall|k: int| 0 <= k < ids.len() ==> owns_asset(assets, owner, #[trigger] ids[k])
}

/// Whether the log holds 20 moves or more.
pub fn check_battle_end_conditions(battle: &Battle) -> (r: bool)
    ensures
        r == (battle.moves@.len() >= 20),
{
    battle.moves.len() >= 20
}

/// Sum of the move values of `player`'s moves in the log.
pub fn calculate_move_bonus(moves: &Vec<BattleMove>, player: Address) -> (r: u128)
    ensures
        r == move_bonus_spec(moves@, player),
        r <= 20 * moves@.len(),
        r <= 20 * (usize::MAX as int),
{
    let mut bonus: u128 = 0;
    let mut i: usize = 0;
    while i < moves.len()
        invariant
            i <= moves@.len(),
            bonus == move_bonus_spec(moves@.subrange(0, i as int), player),
            bonus <= 20 * i,
        decreases moves@.len() - i,
    {
        let m = moves[i];
        assert(moves@.subrange(0, i + 1).drop_last() =~= moves@.subrange(0, i as int));
        if m.player == player {
            let v: u128 = match m.move_type {
                MoveType::Attack => 10,
                MoveType::Defend => 5,
                MoveType::Special => 15,
                MoveType::Combo => 20,
            };
            bonus = bonus + v;
        }
        i = i + 1;
    }
    assert(moves@.subrange(0, moves@.len() as int) =~= moves@);
    bonus
}

/// Whether `x` occurs in `ids`.
pub fn contains_id(ids: &Vec<u64>, x: u64) -> (r: bool)
    ensures
        r == ids@.contains(x),
{
    let mut i: usize = 0;
    while i < ids.len()
        invariant
            i <= ids@.len(),
            forall|k: int| 0 <= k < i ==> ids@[k] != x,
        decreases ids@.len() - i,
    {
        if ids[i] == x {
            return true;
        }
        i = i + 1;
    }
    false
}

/// Grants experience to each listed asset in turn; `false` where a counter
/// would overflow, in which case `assets` is left in an unspecified state.
fn grant_asset_experience(assets: &mut Vec<GameAsset>, ids: &Vec<u64>, gain: u64) -> (ok: bool)
    requires
        assets_wf(old(assets)@),
    ensures
        ok ==> assets_wf(final(assets)@),
        ok ==> final(assets)@.len() == old(assets)@.len(),
        ok ==> forall|k: int|
            0 <= k < old(assets)@.len() ==> final(assets)@[k].owner == old(assets)@[k].owner,
        ok == grant_asset_experience_spec(old(assets)@, ids@, gain).is_some(),
        ok ==> final(assets)@ == grant_asset_experience_spec(old(assets)@, ids@, gain).unwrap(),
{
    let ghost full = grant_asset_experience_spec(old(assets)@, ids@, gain);
    assert(ids@.subrange(0, ids@.len() as int) =~= ids@);
    let mut i: usize = 0;
    while i < ids.len()
        invariant
            i <= ids@.len(),
            full == grant_asset_experience_spec(old(assets)@, ids@, gain),
            assets_wf(assets@),
            assets@.len() == old(assets)@.len(),
            forall|k: int| 0 <= k < old(assets)@.len() ==> assets@[k].owner == old(assets)@[k].owner,
            full == grant_asset_experience_spec(
                assets@,
                ids@.subrange(i as int, ids@.len() as int),
                gain,
            ),
        decreases ids@.len() - i,
    {
        let ghost rest = ids@.subrange(i as int, ids@.len() as int);
        assert(rest.drop_first() =~= ids@.subrange(i + 1, ids@.len() as int));
        assert(rest[0] == ids@[i as int]);
        let id = ids[i];
        if id >= 1 && id <= assets.len() as u64 {
            let k = (id - 1) as usize;
            if assets[k].experience > u64::MAX - gain {
                assert(asset_exists(assets@, id));
                assert(grant_asset_experience_spec(assets@, rest, gain) is None);
                return false;
            }
            let ghost before = assets@;
            let mut a = assets.remove(k);
            a.experience = a.experience + gain;
            a.level = calculate_asset_level(a.experience);
            assets.insert(k, a);
            assert(assets@ =~= before.update(k as int, asset_with_experience(before[k as int], gain)));
            assert(forall|j: int| 0 <= j < assets@.len() && j != k ==> assets@[j] == before[j]);
            assert(assets@[k as int].wf_at(k as int));
        }
        i = i + 1;
    }
    assert(ids@.subrange(i as int, ids@.len() as int).len() == 0);
    true
}

impl StardustContracts {
    pub(crate) fn all_owned_by(&self, ids: &Vec<u64>, owner: Address) -> (r: bool)
        ensures
            r == all_owned(self.assets@, owner, ids@),
    {
        let mut i: usize = 0;
        while i < ids.len()
            invariant
                i <= ids@.len(),
                forall|k: int| 0 <= k < i ==> owns_asset(self.assets@, owner, #[trigger] ids@[k]),
            decreases ids@.len() - i,
        {
            let id = ids[i];
            if !(id >= 1 && id <= self.assets.len() as u64 && self.assets[(id - 1) as usize].owner
                == owner) {
                return false;
            }
            i = i + 1;
        }
        true
    }

    fn side_power(&self, ids: &Vec<u64>) -> (r: u128)
        ensures
            r == side_power_spec(self.assets@, ids@),
            r <= power_cap() * ids@.len(),
            r <= power_cap() * (usize::MAX as int),
    {
        let mut total: u128 = 0;
        let mut i: usize = 0;
        while i < ids.len()
            invariant
                i <= ids@.len(),
                total == side_power_spec(self.assets@, ids@.subrange(0, i as int)),
                total <= power_cap() * i,
            decreases ids@.len() - i,
        {
            assert(ids@.subrange(0, i + 1).drop_last() =~= ids@.subrange(0, i as int));
            let id = ids[i];
            if id >= 1 && id <= self.assets.len() as u64 {
                proof {
                    lemma_power_bounded(self.assets@[id - 1]);
                }
                let p = calculate_asset_power(&self.assets[(id - 1) as usize]);
                total = total + p as u128;
            }
            i = i + 1;
        }
        assert(ids@.subrange(0, ids@.len() as int) =~= ids@);
        total
    }

    fn winner_of(
        &self,
        attacker: Address,
        defender: Address,
        attacker_assets: &Vec<u64>,
        defender_assets: &Vec<u64>,
        moves: &Vec<BattleMove>,
    ) -> (r: Address)
        ensures
            r == winner_spec(
                self.assets@,
                attacker,
                defender,
                attacker_assets@,
                defender_assets@,
                moves@,
            ),
    {
        let attacker_power = self.side_power(attacker_assets) + calculate_move_bonus(
            moves,
            attacker,
        );
        let defender_power = self.side_power(defender_assets) + calculate_move_bonus(
            moves,
            defender,
        );
        if attacker_power >= defender_power {
            attacker
        } else {
            defender
        }
    }

    /// Winner of a battle: greater total power wins, a tie goes to the attacker.
    pub fn calculate_battle_winner(&self, battle: &Battle) -> (r: Address)
        ensures
            r == battle_winner_spec(self.assets@, *battle),
    {
        self.winner_of(
            battle.attacker,
            battle.defender,
            &battle.attacker_assets,
            &battle.defender_assets,
            &battle.moves,
        )
    }
}


/// What resolving battle `b` with winner `w` does to the players and the
/// assets: the winner's stats, then the loser's, then each committed asset of
/// the attacker, then each of the defender.
pub open spec fn resolution_outcome(s: StardustContracts, b: Battle, w: Address) -> Result<
    (Seq<PlayerRecord>, Seq<GameAsset>),
    GameError,
> {
    let l = loser_of(b, w);
    if !(s.is_registered_spec(w) && s.is_registered_spec(l)) {
        Err(GameError::PlayerNotRegistered)
    } else if !(battle_players_fit(s.players@, s.player_index(w), s.player_index(l))
        && assets_after_battle(s.assets@, b, w) is Some) {
        Err(GameError::Overflow)
    } else {
        Ok(
            (
                players_after_battle(s.players@, s.player_index(w), s.player_index(l)),
                assets_after_battle(s.assets@, b, w).unwrap(),
            ),
        )
    }
}

/// The first check that a move by `caller` with `asset_id` fails on battle
/// `b`, if any: the battle must be active, and an odd turn belongs to the
/// attacker, an even one to the defender, with an asset of that side.
pub open spec fn move_refusal(b: Battle, caller: Address, asset_id: u64) -> Option<GameError> {
    if b.status != BattleStatus::Active {
        Some(GameError::BattleNotActive)
    } else if b.turn % 2 == 1 {
        if caller != b.attacker {
            Some(GameError::NotYourTurn)
        } else if !b.attacker_assets@.contains(asset_id) {
            Some(GameError::AssetNotInBattle)
        } else {
            None
        }
    } else {
        if caller != b.defender {
            Some(GameError::NotYourTurn)
        } else if !b.defender_assets@.contains(asset_id) {
            Some(GameError::AssetNotInBattle)
        } else {
            None
        }
    }
}

/// `n` is `o` with one more move `m` logged, the turn advanced and the given status.
pub open spec fn battle_advanced(o: Battle, n: Battle, m: BattleMove, status: BattleStatus) -> bool {
    &&& n.id == o.id
    &&& n.attacker == o.attacker
    &&& n.defender == o.defender
    &&& n.attacker_assets@ == o.attacker_assets@
    &&& n.defender_assets@ == o.defender_assets@
    &&& n.battle_type == o.battle_type
    &&& n.created_at == o.created_at
    &&& n.turn == o.turn + 1
    &&& n.moves@ == o.moves@.push(m)
    &&& n.status == status
}

/// Battles `n` equal battles `o` but at index `idx`.
pub open spec fn battles_frame(o: Seq<Battle>, n: Seq<Battle>, idx: int) -> bool {
    n.len() == o.len() && forall|k: int| 0 <= k < o.len() && k != idx ==> n[k] == o[k]
}

impl StardustContracts {
    fn apply_battle_stats(&mut self, i: usize, won: bool)
        requires
            old(self).wf(),
            i < old(self).players@.len(),
            battle_stats_fit(old(self).players@[i as int].stats, won),
        ensures
            final(self).wf(),
            final(self).players@ == old(self).players@.update(
                i as int,
                with_stats(
                    old(self).players@[i as int],
                    stats_after_battle(old(self).players@[i as int].stats, won),
                ),
            ),
            final(self).admin == old(self).admin,
            final(self).assets == old(self).assets,
            final(self).tournaments == old(self).tournaments,
            final(self).battles == old(self).battles,
            final(self).missions == old(self).missions,
    {
        let ghost before = self.players@;
        let mut rec = self.players.remove(i);
        let gain: u64 = if won {
            100
        } else {
            25
        };
        rec.stats.experience = rec.stats.experience + gain;
        rec.stats.level = calculate_level(rec.stats.experience);
        rec.stats.games_played = rec.stats.games_played + 1;
        if won {
            rec.stats.games_won = rec.stats.games_won + 1;
        }
        self.players.insert(i, rec);
        assert(self.players@ =~= before.update(
            i as int,
            with_stats(before[i as int], stats_after_battle(before[i as int].stats, won)),
        ));
        assert(forall|k: int|
            0 <= k < before.len() ==> #[trigger] self.players@[k].address == before[k].address);
        assert(forall|k: int|
            0 <= k < before.len() ==> #[trigger] self.players@[k].active_missions
                == before[k].active_missions);
        proof {
            lemma_ownership_kept(before, self.assets@, self.players@, self.assets@);
        }
    }

    /// Awards the result of battle `idx` with winner `winner`: experience and
    /// games to both players, experience to every committed asset.
    fn resolve_battle(&mut self, idx: usize, winner: Address) -> (r: Result<(), GameError>)
        requires
            old(self).wf(),
            idx < old(self).battles@.len(),
        ensures
            final(self).wf(),
            match resolution_outcome(*old(self), old(self).battles@[idx as int], winner) {
                Err(e) => r == Err::<(), GameError>(e) && *final(self) == *old(self),
                Ok((p, a)) => {
                    &&& r is Ok
                    &&& final(self).players@ == p
                    &&& final(self).assets@ == a
                    &&& final(self).admin == old(self).admin
                    &&& final(self).tournaments == old(self).tournaments
                    &&& final(self).battles == old(self).battles
                    &&& final(self).missions == old(self).missions
                },
            },
    {
        let attacker = self.battles[idx].attacker;
        let defender = self.battles[idx].defender;
        let loser = if winner == attacker {
            defender
        } else {
            attacker
        };
        let iw = match self.find_player(winner) {
            Some(i) => i,
            None => return Err(GameError::PlayerNotRegistered),
        };
        let il = match self.find_player(loser) {
            Some(i) => i,
            None => return Err(GameError::PlayerNotRegistered),
        };
        let ws = &self.players[iw].stats;
        let winner_fits = ws.experience <= u64::MAX - 100 && ws.games_played < u32::MAX
            && ws.games_won < u32::MAX;
        let loser_fits = if il == iw {
            ws.experience <= u64::MAX - 125 && ws.games_played < u32::MAX - 1
        } else {
            let ls = &self.players[il].stats;
            ls.experience <= u64::MAX - 25 && ls.games_played < u32::MAX
        };
        if !(winner_fits && loser_fits) {
            return Err(GameError::Overflow);
        }
        let mut assets = self.assets.clone();
        assert(assets@ =~= self.assets@);
        let attacker_gain: u64 = if winner == attacker {
            50
        } else {
            10
        };
        let defender_gain: u64 = if winner == defender {
            50
        } else {
            10
        };
        if !grant_asset_experience(&mut assets, &self.battles[idx].attacker_assets, attacker_gain) {
            return Err(GameError::Overflow);
        }
        if !grant_asset_experience(&mut assets, &self.battles[idx].defender_assets, defender_gain) {
            return Err(GameError::Overflow);
        }
        self.apply_battle_stats(iw, true);
        self.apply_battle_stats(il, false);
        let ghost mid = self.assets@;
        self.assets = assets;
        proof {
            lemma_ownership_kept(self.players@, mid, self.players@, self.assets@);
        }
        Ok(())
    }

    /// Submits a move for the side whose turn it is. The battle resolves
    /// within the same call once the turn counter passes 10 or the log holds
    /// 20 moves.
    pub fn make_move(
        &mut self,
        caller: Address,
        battle_id: u64,
        asset_id: u64,
        move_type: MoveType,
        target_asset: Option<u64>,
        now: u64,
    ) -> (r: Result<(), GameError>)
        requires
            old(self).wf(),
        ensures
            final(self).wf(),
            r is Err ==> *final(self) == *old(self),
            !(1 <= battle_id <= old(self).battles@.len()) ==> r == Err::<(), GameError>(
                GameError::BattleNotFound,
            ),
            1 <= battle_id <= old(self).battles@.len() ==> {
                let idx = battle_id - 1;
                let b = old(self).battles@[idx];
                let m = BattleMove {
                    turn: b.turn,
                    player: caller,
                    asset_id,
                    move_type,
                    target_asset,
                    timestamp: now,
                };
                let moves = b.moves@.push(m);
                let w = winner_spec(
                    old(self).assets@,
                    b.attacker,
                    b.defender,
                    b.attacker_assets@,
                    b.defender_assets@,
                    moves,
                );
                if move_refusal(b, caller, asset_id) is Some {
                    r == Err::<(), GameError>(move_refusal(b, caller, asset_id).unwrap())
                } else if !battle_ends(b.turn + 1, moves.len() as int) {
                    &&& r is Ok
                    &&& battles_frame(old(self).battles@, final(self).battles@, idx)
                    &&& battle_advanced(b, final(self).battles@[idx], m, BattleStatus::Active)
                    &&& final(self).players == old(self).players
                    &&& final(self).assets == old(self).assets
                    &&& final(self).admin == old(self).admin
                    &&& final(self).tournaments == old(self).tournaments
                    &&& final(self).missions == old(self).missions
                } else {
                    match resolution_outcome(*old(self), b, w) {
                        Err(e) => r == Err::<(), GameError>(e),
                        Ok((p, a)) => {
                            &&& r is Ok
                            &&& battles_frame(old(self).battles@, final(self).battles@, idx)
                            &&& battle_advanced(
                                b,
                                final(self).battles@[idx],
                                m,
                                BattleStatus::Completed,
                            )
                            &&& final(self).players@ == p
                            &&& final(self).assets@ == a
                            &&& final(self).admin == old(self).admin
                            &&& final(self).tournaments == old(self).tournaments
                            &&& final(self).missions == old(self).missions
                        },
                    }
                }
            },
    {
        if battle_id < 1 || battle_id > self.battles.len() as u64 {
            return Err(GameError::BattleNotFound);
        }
        let idx = (battle_id - 1) as usize;
        let status = self.battles[idx].status;
        let turn = self.battles[idx].turn;
        let attacker = self.battles[idx].attacker;
        let defender = self.battles[idx].defender;
        if status != BattleStatus::Active {
            return Err(GameError::BattleNotActive);
        }
        if turn % 2 == 1 {
            if caller != attacker {
                return Err(GameError::NotYourTurn);
            }
            if !contains_id(&self.battles[idx].attacker_assets, asset_id) {
                return Err(GameError::AssetNotInBattle);
            }
        } else {
            if caller != defender {
                return Err(GameError::NotYourTurn);
            }
            if !contains_id(&self.battles[idx].defender_assets, asset_id) {
                return Err(GameError::AssetNotInBattle);
            }
        }
        proof {
            assert(self.battles@[idx as int].wf_at(idx as int));
        }
        let m = BattleMove {
            turn,
            player: caller,
            asset_id,
            move_type,
            target_asset,
            timestamp: now,
        };
        let ends = turn + 1 > 10 || self.battles[idx].moves.len() >= 19;
        if ends {
            let mut moves = self.battles[idx].moves.clone();
            assert(moves@ =~= self.battles@[idx as int].moves@);
            moves.push(m);
            let w = self.winner_of(
                attacker,
                defender,
                &self.battles[idx].attacker_assets,
                &self.battles[idx].defender_assets,
                &moves,
            );
            let res = self.resolve_battle(idx, w);
            if res.is_err() {
                return res;
            }
        }
        let ghost before = self.battles@;
        let mut b = self.battles.remove(idx);
        b.moves.push(m);
        b.turn = turn + 1;
        if ends {
            b.status = BattleStatus::Completed;
        }
        self.battles.insert(idx, b);
        assert(self.battles@ =~= before.update(idx as int, b));
        assert(forall|k: int|
            0 <= k < self.battles@.len() && k != idx ==> self.battles@[k] == before[k]);
        Ok(())
    }
}


/// The battle ids, in order, in which `player` is attacker or defender.
pub open spec fn battles_of(bs: Seq<Battle>, player: Address) -> Seq<u64>
    decreases bs.len(),
{
    if bs.len() == 0 {
        Seq::empty()
    } else {
        let rest = battles_of(bs.drop_last(), player);
        if bs.last().attacker == player || bs.last().defender == player {
            rest.push(bs.last().id)
        } else {
            rest
        }
    }
}

/// The first check that a challenge fails, if any.
pub open spec fn initiate_refusal(
    s: StardustContracts,
    caller: Address,
    opponent: Address,
    attacker_assets: Seq<u64>,
) -> Option<GameError> {
    if !s.is_registered_spec(caller) {
        Some(GameError::PlayerNotRegistered)
    } else if !s.is_registered_spec(opponent) {
        Some(GameError::OpponentNotRegistered)
    } else if attacker_assets.len() > 3 {
        Some(GameError::TooManyAssets)
    } else if !all_owned(s.assets@, caller, attacker_assets) {
        Some(GameError::AssetNotOwned)
    } else if s.battles@.len() >= u64::MAX {
        Some(GameError::Overflow)
    } else {
        None
    }
}

/// The first check that accepting a battle fails, if any.
pub open spec fn accept_refusal(
    s: StardustContracts,
    caller: Address,
    battle_id: u64,
    defender_assets: Seq<u64>,
) -> Option<GameError> {
    if !(1 <= battle_id <= s.battles@.len()) {
        Some(GameError::BattleNotFound)
    } else if s.battles@[battle_id - 1].defender != caller {
        Some(GameError::NotTheDefender)
    } else if s.battles@[battle_id - 1].status != BattleStatus::WaitingForDefender {
        Some(GameError::BattleAlreadyAccepted)
    } else if defender_assets.len() > 3 {
        Some(GameError::TooManyAssets)
    } else if !all_owned(s.assets@, caller, defender_assets) {
        Some(GameError::AssetNotOwned)
    } else {
        None
    }
}

impl StardustContracts {
    /// Challenges `opponent` with up to three assets of the caller. The new
    /// battle waits for the defender, at turn 1 with an empty log.
    pub fn initiate_battle(
        &mut self,
        caller: Address,
        opponent: Address,
        attacker_assets: Vec<u64>,
        battle_type: BattleType,
        now: u64,
    ) -> (r: Result<u64, GameError>)
        requires
            old(self).wf(),
        ensures
            final(self).wf(),
            match initiate_refusal(*old(self), caller, opponent, attacker_assets@) {
                Some(e) => r == Err::<u64, GameError>(e) && *final(self) == *old(self),
                None => {
                    let n = old(self).battles@.len();
                    let b = final(self).battles@[n as int];
                    &&& r == Ok::<u64, GameError>((n + 1) as u64)
                    &&& final(self).battles@.len() == n + 1
                    &&& final(self).battles@.subrange(0, n as int) == old(self).battles@
                    &&& b.id == n + 1
                    &&& b.attacker == caller
                    &&& b.defender == opponent
                    &&& b.attacker_assets@ == attacker_assets@
                    &&& b.defender_assets@.len() == 0
                    &&& b.battle_type == battle_type
                    &&& b.status == BattleStatus::WaitingForDefender
                    &&& b.turn == 1
                    &&& b.created_at == now
                    &&& b.moves@.len() == 0
                    &&& final(self).players == old(self).players
                    &&& final(self).assets == old(self).assets
                    &&& final(self).admin == old(self).admin
                    &&& final(self).tournaments == old(self).tournaments
                    &&& final(self).missions == old(self).missions
                },
            },
    {
        if self.find_player(caller).is_none() {
            return Err(GameError::PlayerNotRegistered);
        }
        if self.find_player(opponent).is_none() {
            return Err(GameError::OpponentNotRegistered);
        }
        if attacker_assets.len() > 3 {
            return Err(GameError::TooManyAssets);
        }
        if !self.all_owned_by(&attacker_assets, caller) {
            return Err(GameError::AssetNotOwned);
        }
        let n = self.battles.len() as u64;
        if n == u64::MAX {
            return Err(GameError::Overflow);
        }
        let battle = Battle {
            id: n + 1,
            attacker: caller,
            defender: opponent,
            attacker_assets,
            defender_assets: Vec::new(),
            battle_type,
            status: BattleStatus::WaitingForDefender,
            turn: 1,
            created_at: now,
            moves: Vec::new(),
        };
        let ghost before = self.battles@;
        self.battles.push(battle);
        assert(self.battles@.subrange(0, n as int) =~= before);
        assert(forall|k: int|
            0 <= k < self.battles@.len() ==> (#[trigger] self.battles@[k]).wf_at(k)) by {
            assert forall|k: int| 0 <= k < self.battles@.len() implies (
            #[trigger] self.battles@[k]).wf_at(k) by {
                if k < n {
                    assert(self.battles@[k] == before[k]);
                }
            }
        }
        Ok(n + 1)
    }

    /// The defender accepts a waiting battle with up to three of its assets;
    /// the battle becomes active.
    pub fn accept_battle(&mut self, caller: Address, battle_id: u64, defender_assets: Vec<u64>) -> (r:
        Result<(), GameError>)
        requires
            old(self).wf(),
        ensures
            final(self).wf(),
            match accept_refusal(*old(self), caller, battle_id, defender_assets@) {
                Some(e) => r == Err::<(), GameError>(e) && *final(self) == *old(self),
                None => {
                    let idx = battle_id - 1;
                    let o = old(self).battles@[idx];
                    let b = final(self).battles@[idx];
                    &&& r is Ok
                    &&& battles_frame(old(self).battles@, final(self).battles@, idx)
                    &&& b.id == o.id
                    &&& b.attacker == o.attacker
                    &&& b.defender == o.defender
                    &&& b.attacker_assets@ == o.attacker_assets@
                    &&& b.defender_assets@ == defender_assets@
                    &&& b.battle_type == o.battle_type
                    &&& b.status == BattleStatus::Active
                    &&& b.turn == o.turn
                    &&& b.created_at == o.created_at
                    &&& b.moves@ == o.moves@
                    &&& final(self).players == old(self).players
                    &&& final(self).assets == old(self).assets
                    &&& final(self).admin == old(self).admin
                    &&& final(self).tournaments == old(self).tournaments
                    &&& final(self).missions == old(self).missions
                },
            },
    {
        if battle_id < 1 || battle_id > self.battles.len() as u64 {
            return Err(GameError::BattleNotFound);
        }
        let idx = (battle_id - 1) as usize;
        if self.battles[idx].defender != caller {
            return Err(GameError::NotTheDefender);
        }
        if self.battles[idx].status != BattleStatus::WaitingForDefender {
            return Err(GameError::BattleAlreadyAccepted);
        }
        if defender_assets.len() > 3 {
            return Err(GameError::TooManyAssets);
        }
        if !self.all_owned_by(&defender_assets, caller) {
            return Err(GameError::AssetNotOwned);
        }
        let ghost before = self.battles@;
        let mut b = self.battles.remove(idx);
        b.defender_assets = defender_assets;
        b.status = BattleStatus::Active;
        self.battles.insert(idx, b);
        assert(self.battles@ =~= before.update(idx as int, b));
        assert(before[idx as int].wf_at(idx as int));
        assert(forall|k: int|
            0 <= k < self.battles@.len() && k != idx ==> self.battles@[k] == before[k]);
        Ok(())
    }

    /// The battle with the given id, if there is one.
    pub fn get_battle(&self, battle_id: u64) -> (r: Option<&Battle>)
        ensures
            r.is_some() == (1 <= battle_id <= self.battles@.len()),
            r.is_some() ==> *r.unwrap() == self.battles@[battle_id - 1],
    {
        if battle_id >= 1 && battle_id <= self.battles.len() as u64 {
            Some(&self.battles[(battle_id - 1) as usize])
        } else {
            None
        }
    }

    /// Ids of the battles in which `player` is attacker or defender, each
    /// once, in increasing order.
    pub fn get_player_battles(&self, player: Address) -> (r: Vec<u64>)
        requires
            self.wf(),
        ensures
            r@ == battles_of(self.battles@, player),
            r@.no_duplicates(),
            forall|id: u64|
                r@.contains(id) <==> (1 <= id <= self.battles@.len() && (self.battles@[id
                    - 1].attacker == player || self.battles@[id - 1].defender == player)),
    {
        let mut out: Vec<u64> = Vec::new();
        let mut i: usize = 0;
        while i < self.battles.len()
            invariant
                self.wf(),
                i <= self.battles@.len(),
                out@ == battles_of(self.battles@.subrange(0, i as int), player),
                forall|a: int, b: int| 0 <= a < b < out@.len() ==> out@[a] < out@[b],
                forall|j: int|
                    0 <= j < out@.len() ==> 1 <= #[trigger] out@[j] <= i && (self.battles@[out@[j]
                        - 1].attacker == player || self.battles@[out@[j] - 1].defender == player),
                forall|id: u64|
                    1 <= id <= i && (self.battles@[id - 1].attacker == player || self.battles@[id
                        - 1].defender == player) ==> out@.contains(id),
            decreases self.battles@.len() - i,
        {
            assert(self.battles@.subrange(0, i + 1).drop_last() =~= self.battles@.subrange(
                0,
                i as int,
            ));
            let b = &self.battles[i];
            assert(self.battles@[i as int].wf_at(i as int));
            let ghost prev = out@;
            if b.attacker == player || b.defender == player {
                out.push(b.id);
                assert(out@[prev.len() as int] == (i + 1) as u64);
                assert(forall|id: u64| prev.contains(id) ==> out@.contains(id)) by {
                    assert forall|id: u64| prev.contains(id) implies out@.contains(id) by {
                        let j = choose|j: int| 0 <= j < prev.len() && prev[j] == id;
                        assert(out@[j] == id);
                    }
                }
                assert(out@.contains((i + 1) as u64));
            }
            assert forall|id: u64|
                1 <= id <= i + 1 && (self.battles@[id - 1].attacker == player
                    || self.battles@[id - 1].defender == player) implies out@.contains(id) by {
                if id <= i {
                    assert(prev.contains(id));
                    let j = choose|j: int| 0 <= j < prev.len() && prev[j] == id;
                    assert(out@[j] == id);
                }
            }
            i = i + 1;
        }
        assert(self.battles@.subrange(0, self.battles@.len() as int) =~= self.battles@);
        proof {
            assert forall|a: int, b: int| 0 <= a < out@.len() && 0 <= b < out@.len() && a != b implies out@[a]
                != out@[b] by {
                if a < b {
                    assert(out@[a] < out@[b]);
                } else {
                    assert(out@[b] < out@[a]);
                }
            }
            assert forall|id: u64| out@.contains(id) implies (1 <= id <= self.battles@.len() && (
            self.battles@[id - 1].attacker == player || self.battles@[id - 1].defender
                == player)) by {
                let j = choose|j: int| 0 <= j < out@.len() && out@[j] == id;
                assert(1 <= out@[j] <= i);
            }
        }
        out
    }

    /// Current power of an asset.
    pub fn get_asset_power(&self, asset_id: u64) -> (r: Result<u64, GameError>)
        ensures
            asset_exists(self.assets@, asset_id) ==> r == Ok::<u64, GameError>(
                asset_power_spec(self.assets@[asset_id - 1]) as u64,
            ),
            !asset_exists(self.assets@, asset_id) ==> r == Err::<u64, GameError>(
                GameError::AssetNotFound,
            ),
    {
        if asset_id >= 1 && asset_id <= self.assets.len() as u64 {
            Ok(calculate_asset_power(&self.assets[(asset_id - 1) as usize]))
        } else {
            Err(GameError::AssetNotFound)
        }
    }
}


/// A battle that is no longer waiting for its defender cannot be accepted:
/// `accept_battle` refuses it and changes nothing.
pub proof fn lemma_accept_only_once(
    s: StardustContracts,
    caller: Address,
    battle_id: u64,
    defender_assets: Seq<u64>,
)
    requires
        1 <= battle_id <= s.battles@.len(),
        s.battles@[battle_id - 1].status != BattleStatus::WaitingForDefender,
    ensures
        accept_refusal(s, caller, battle_id, defender_assets) is Some,
{
}

/// On an odd turn the defender of a two-sided battle may not move.
pub proof fn lemma_defender_waits_on_odd_turn(b: Battle, asset_id: u64)
    requires
        b.attacker != b.defender,
        b.turn % 2 == 1,
    ensures
        move_refusal(b, b.defender, asset_id) == Some(GameError::NotYourTurn) || move_refusal(
            b,
            b.defender,
            asset_id,
        ) == Some(GameError::BattleNotActive),
{
}

/// A move on an active battle whose turn counter then passes 10, or whose
/// log then holds 20 moves, resolves it; a completed battle takes no more
/// moves, so it never resolves again.
pub proof fn lemma_resolution_fires_once(b: Battle, caller: Address, asset_id: u64)
    ensures
        b.status == BattleStatus::Completed ==> move_refusal(b, caller, asset_id) == Some(
            GameError::BattleNotActive,
        ),
        b.status == BattleStatus::Active && b.turn < 10 && b.moves@.len() < 19 ==> !battle_ends(
            b.turn + 1,
            b.moves@.len() + 1int,
        ),
        b.turn >= 10 ==> battle_ends(b.turn + 1, b.moves@.len() + 1int),
        b.moves@.len() >= 19 ==> battle_ends(b.turn + 1, b.moves@.len() + 1int),
{
}

/// Equal total power makes the attacker the winner.
pub proof fn lemma_tie_goes_to_attacker(
    assets: Seq<GameAsset>,
    attacker: Address,
    defender: Address,
    attacker_assets: Seq<u64>,
    defender_assets: Seq<u64>,
    moves: Seq<BattleMove>,
)
    requires
        side_power_spec(assets, attacker_assets) + move_bonus_spec(moves, attacker)
            == side_power_spec(assets, defender_assets) + move_bonus_spec(moves, defender),
    ensures
        winner_spec(assets, attacker, defender, attacker_assets, defender_assets, moves)
            == attacker,
{
}

} // verus!
