use stardust_contracts::combat_system::{BattleStatus, BattleType, MoveType};
use stardust_contracts::platform::{Address, AssetType, GameError, Rarity, StardustContracts};
use stardust_contracts::quest_system::{
    AssetTemplate, MissionStatus, MissionTemplate, Objective, ObjectiveType, RequiredAsset, Reward,
    RewardType,
};

const ADMIN: Address = Address(1);
const ALICE: Address = Address(10);
const BOB: Address = Address(11);
const CAROL: Address = Address(12);
const COMMON_PRICE: u128 = 1_000_000_000_000_000_000;

fn game() -> StardustContracts {
    let mut g = StardustContracts::init(ADMIN);
    g.register_player(ALICE).unwrap();
    g.register_player(BOB).unwrap();
    g
}

fn objective(id: u64, kind: ObjectiveType, target: u32) -> Objective {
    Objective { id, description: String::from("goal"), objective_type: kind, target_amount: target }
}

fn plain(kind: RewardType, amount: u64) -> Reward {
    Reward { reward_type: kind, amount, asset_template: None, title: None }
}

fn title(name: &str) -> Reward {
    Reward { reward_type: RewardType::Title, amount: 1, asset_template: None, title: Some(String::from(name)) }
}

fn asset_reward(rarity: Rarity, name: &str) -> Reward {
    Reward {
        reward_type: RewardType::Asset,
        amount: 1,
        asset_template: Some(AssetTemplate {
            asset_type: AssetType::Vehicle,
            rarity,
            name: String::from(name),
            description: String::from("reward"),
        }),
        title: None,
    }
}

fn template(
    id: u64,
    chapter: u32,
    required_level: u32,
    prerequisites: Vec<u64>,
    required_assets: Vec<RequiredAsset>,
    objectives: Vec<Objective>,
    rewards: Vec<Reward>,
) -> MissionTemplate {
    MissionTemplate {
        id,
        name: String::from("mission"),
        description: String::from("text"),
        chapter,
        required_level,
        total_objectives: objectives.len() as u32,
        prerequisites,
        required_assets,
        objectives,
        rewards,
    }
}

fn mint(g: &mut StardustContracts, who: Address, kind: AssetType, rarity: Rarity) -> u64 {
    let price = stardust_contracts::platform::get_mint_cost(rarity);
    g.mint_game_asset(who, kind, rarity, String::from("item"), String::from("desc"), price, 4).unwrap()
}

/// Alice wins one battle against Bob.
fn win_battle(g: &mut StardustContracts, a: u64, b: u64) {
    let id = g.initiate_battle(ALICE, BOB, vec![a], BattleType::Casual, 1).unwrap();
    g.accept_battle(BOB, id, vec![b]).unwrap();
    while g.get_battle(id).unwrap().status == BattleStatus::Active {
        if g.get_battle(id).unwrap().turn % 2 == 1 {
            g.make_move(ALICE, id, a, MoveType::Combo, None, 9).unwrap();
        } else {
            g.make_move(BOB, id, b, MoveType::Defend, None, 9).unwrap();
        }
    }
}

#[test]
fn chapter_one_mission_end_to_end() {
    let mut g = game();
    assert_eq!(g.initialize_chapter_missions(ALICE), Err(GameError::NotAdmin));
    g.initialize_chapter_missions(ADMIN).unwrap();
    let t = g.get_mission_template(1).unwrap();
    assert_eq!(t.name, "Training Academy");
    assert_eq!(t.total_objectives, 3);
    assert_eq!(t.rewards.len(), 3);
    assert!(g.get_mission_details(2).is_none());
    assert_eq!(g.get_available_missions(ALICE), Some(vec![1]));
    assert_eq!(g.get_available_missions(CAROL), None);

    assert_eq!(g.start_mission(CAROL, 1, 5), Err(GameError::PlayerNotRegistered));
    assert_eq!(g.start_mission(ALICE, 2, 5), Err(GameError::MissionNotFound));
    g.start_mission(ALICE, 1, 5).unwrap();
    assert_eq!(g.start_mission(ALICE, 1, 6), Err(GameError::MissionAlreadyActive));
    assert_eq!(g.get_available_missions(ALICE), Some(vec![]));
    let active = g.get_player_missions(ALICE).unwrap();
    assert_eq!(active.len(), 1);
    assert_eq!(active[0].status, MissionStatus::Active);
    assert_eq!(active[0].progress, 0);
    assert_eq!(active[0].started_at, 5);
    assert_eq!(g.get_player_profile(ALICE, 0).unwrap().active_missions, 1);

    let a1 = mint(&mut g, ALICE, AssetType::Character, Rarity::Common);
    let b1 = mint(&mut g, BOB, AssetType::Character, Rarity::Common);
    assert_eq!(g.complete_objective(ALICE, 1, 1, vec![], 7), Err(GameError::InsufficientAssetsCollected));
    assert_eq!(g.complete_objective(ALICE, 1, 1, vec![b1], 7), Err(GameError::AssetNotOwned));
    g.complete_objective(ALICE, 1, 1, vec![a1], 7).unwrap();
    assert_eq!(g.complete_objective(ALICE, 1, 2, vec![], 7), Err(GameError::InsufficientBattlesWon));
    assert_eq!(g.complete_objective(ALICE, 1, 3, vec![], 7), Err(GameError::LevelRequirementNotMet));
    assert_eq!(g.complete_objective(ALICE, 1, 0, vec![], 7), Err(GameError::ObjectiveNotFound));
    assert_eq!(g.complete_objective(ALICE, 1, 4, vec![], 7), Err(GameError::ObjectiveNotFound));
    assert_eq!(g.complete_objective(BOB, 1, 1, vec![b1], 7), Err(GameError::MissionNotActive));

    win_battle(&mut g, a1, b1);
    assert_eq!(g.get_player_stats(ALICE).unwrap().level, 2);
    g.complete_objective(ALICE, 1, 2, vec![], 8).unwrap();
    assert_eq!(g.get_player_missions(ALICE).unwrap()[0].progress, 2);
    g.complete_objective(ALICE, 1, 3, vec![], 8).unwrap();

    // Completed: rewards issued in order, mission moved to the completed set.
    let stats = g.get_player_stats(ALICE).unwrap();
    assert_eq!(stats.experience, 300);
    assert_eq!(stats.level, 2);
    assert_eq!(stats.assets_owned, 2);
    assert_eq!(stats.achievements, vec![String::from("Chapter 1 Complete")]);
    assert_eq!(g.get_player_titles(ALICE), vec![String::from("Rookie Engineer")]);
    let blade = g.get_asset(3).unwrap();
    assert_eq!(blade.owner, ALICE);
    assert_eq!(blade.name, "Training Blade");
    assert_eq!(blade.rarity, Rarity::Rare);
    assert_eq!(blade.asset_type, AssetType::Weapon);
    assert_eq!(blade.level, 1);
    assert_eq!(blade.experience, 0);
    assert_eq!(blade.created_at, 8);
    assert!(g.get_player_missions(ALICE).unwrap().is_empty());
    assert_eq!(g.players[0].completed_missions, vec![1]);
    assert_eq!(g.complete_objective(ALICE, 1, 3, vec![], 9), Err(GameError::MissionNotActive));
    assert_eq!(g.get_available_missions(ALICE), Some(vec![]));

    // A completed mission can be started again; the achievement is not repeated.
    g.start_mission(ALICE, 1, 10).unwrap();
    g.complete_objective(ALICE, 1, 1, vec![a1], 11).unwrap();
    g.complete_objective(ALICE, 1, 2, vec![], 11).unwrap();
    g.complete_objective(ALICE, 1, 3, vec![], 11).unwrap();
    let stats = g.get_player_stats(ALICE).unwrap();
    assert_eq!(stats.achievements.len(), 1);
    assert_eq!(stats.experience, 500);
    assert_eq!(g.get_player_titles(ALICE).len(), 1);
    assert_eq!(g.players[0].completed_missions, vec![1]);
}

#[test]
fn objective_counts_only_once() {
    let mut g = game();
    let t = template(
        5,
        2,
        1,
        vec![],
        vec![],
        vec![
            objective(1, ObjectiveType::JoinTournament, 1),
            objective(2, ObjectiveType::ExploreTerritory, 1),
        ],
        vec![plain(RewardType::StardustPoints, 40)],
    );
    assert!(t.is_well_formed());
    g.create_mission_template(5, t);
    g.start_mission(ALICE, 5, 1).unwrap();
    assert_eq!(g.complete_objective(ALICE, 5, 1, vec![], 2), Err(GameError::TournamentProofRequired));
    assert_eq!(g.complete_objective(ALICE, 5, 2, vec![], 2), Err(GameError::ExplorationProofRequired));
    g.complete_objective(ALICE, 5, 1, vec![77], 2).unwrap();
    assert_eq!(g.complete_objective(ALICE, 5, 1, vec![77], 3), Err(GameError::ObjectiveAlreadyCompleted));
    let m = &g.get_player_missions(ALICE).unwrap()[0];
    assert_eq!(m.progress, 1);
    assert_eq!(m.objectives_completed, vec![1]);
    g.complete_objective(ALICE, 5, 2, vec![78], 3).unwrap();
    assert_eq!(g.get_player_profile(ALICE, 0).unwrap().stardust_points, 140);
    // Not chapter 1: no achievement.
    assert!(g.get_player_stats(ALICE).unwrap().achievements.is_empty());
}

#[test]
fn rewards_apply_in_declared_order() {
    let mut g = game();
    let t = template(
        8,
        3,
        1,
        vec![],
        vec![],
        vec![objective(1, ObjectiveType::ReachLevel, 1)],
        vec![
            asset_reward(Rarity::Epic, "glider"),
            title("Pilot"),
            title("Pilot"),
            plain(RewardType::Experience, 150),
            asset_reward(Rarity::Legendary, "cruiser"),
        ],
    );
    g.create_mission_template(8, t);
    g.start_mission(ALICE, 8, 1).unwrap();
    g.complete_objective(ALICE, 8, 1, vec![], 2).unwrap();
    assert_eq!(g.get_asset(1).unwrap().name, "glider");
    assert_eq!(g.get_asset(1).unwrap().rarity, Rarity::Epic);
    assert_eq!(g.get_asset(2).unwrap().name, "cruiser");
    assert_eq!(g.get_player_assets(ALICE).len(), 2);
    assert_eq!(g.get_player_titles(ALICE), vec![String::from("Pilot")]);
    let stats = g.get_player_stats(ALICE).unwrap();
    assert_eq!(stats.assets_owned, 2);
    assert_eq!(stats.experience, 150);
    assert_eq!(stats.level, 2);
}

#[test]
fn malformed_template_is_detected() {
    let broken = Reward { reward_type: RewardType::Asset, amount: 1, asset_template: None, title: None };
    let t = template(3, 1, 1, vec![], vec![], vec![], vec![broken]);
    assert!(!t.is_well_formed());
    let t = template(3, 1, 1, vec![], vec![], vec![], vec![title("x"), asset_reward(Rarity::Rare, "y")]);
    assert!(t.is_well_formed());
}

#[test]
fn start_needs_level_then_prerequisite() {
    let mut g = game();
    g.initialize_chapter_missions(ADMIN).unwrap();
    let t = template(2, 2, 2, vec![1], vec![], vec![objective(1, ObjectiveType::ReachLevel, 2)], vec![]);
    g.create_mission_template(2, t);
    assert_eq!(g.start_mission(ALICE, 2, 1), Err(GameError::LevelRequirementNotMet));
    g.update_player_experience(ADMIN, ALICE, 100).unwrap();
    g.update_player_experience(ADMIN, ALICE, 50).unwrap();
    assert_eq!(g.get_player_stats(ALICE).unwrap().level, 2);
    assert_eq!(g.start_mission(ALICE, 2, 1), Err(GameError::PrerequisiteNotCompleted));
    assert!(g.get_player_missions(ALICE).unwrap().is_empty());
    assert_eq!(g.get_available_missions(ALICE), Some(vec![1]));
}

#[test]
fn required_assets_are_checked_by_type_and_rarity() {
    let mut g = game();
    let req = RequiredAsset { asset_type: AssetType::Weapon, min_rarity: Rarity::Epic };
    let t = template(4, 2, 1, vec![], vec![req], vec![objective(1, ObjectiveType::ReachLevel, 1)], vec![]);
    g.create_mission_template(4, t);
    assert_eq!(g.start_mission(ALICE, 4, 1), Err(GameError::RequiredAssetNotFound));
    mint(&mut g, ALICE, AssetType::Weapon, Rarity::Rare);
    mint(&mut g, ALICE, AssetType::Skin, Rarity::Legendary);
    assert_eq!(g.start_mission(ALICE, 4, 1), Err(GameError::RequiredAssetNotFound));
    mint(&mut g, ALICE, AssetType::Weapon, Rarity::Legendary);
    g.start_mission(ALICE, 4, 1).unwrap();
}

#[test]
fn replacing_a_template_keeps_one_entry() {
    let mut g = game();
    g.create_mission_template(6, template(6, 2, 1, vec![], vec![], vec![], vec![]));
    g.create_mission_template(6, template(60, 2, 9, vec![], vec![], vec![], vec![]));
    assert_eq!(g.get_platform_stats().total_missions, 1);
    assert_eq!(g.get_mission_template(6).unwrap().required_level, 9);
    assert_eq!(g.get_available_missions(ALICE), Some(vec![]));
}
