use stardust_contracts::levels::{calculate_asset_level, calculate_level, integer_sqrt};
use stardust_contracts::platform::{
    calculate_asset_power, get_mint_cost, get_version, hello, Address, AssetType, GameAsset,
    GameError, Rarity, StardustContracts, TournamentStatus,
};

const ADMIN: Address = Address(1);
const ALICE: Address = Address(10);
const BOB: Address = Address(11);
const CAROL: Address = Address(12);
const COMMON_PRICE: u128 = 1_000_000_000_000_000_000;

fn game() -> StardustContracts {
    let mut g = StardustContracts::init(ADMIN);
    g.register_player(ALICE).unwrap();
    g.register_player(BOB).unwrap();
    g
}

fn asset(rarity: Rarity, level: u32, experience: u64) -> GameAsset {
    GameAsset {
        id: 1,
        owner: ALICE,
        asset_type: AssetType::Weapon,
        rarity,
        name: String::from("blade"),
        description: String::from("sharp"),
        created_at: 0,
        level,
        experience,
    }
}

#[test]
fn integer_sqrt_is_floor() {
    assert_eq!(integer_sqrt(0), 0);
    assert_eq!(integer_sqrt(1), 1);
    assert_eq!(integer_sqrt(15), 3);
    assert_eq!(integer_sqrt(16), 4);
    assert_eq!(integer_sqrt(17), 4);
    assert_eq!(integer_sqrt(u64::MAX), 4_294_967_295);
}

#[test]
fn player_level_curve() {
    assert_eq!(calculate_level(0), 1);
    assert_eq!(calculate_level(99), 1);
    assert_eq!(calculate_level(100), 2);
    assert_eq!(calculate_level(399), 2);
    assert_eq!(calculate_level(400), 3);
    assert_eq!(calculate_level(u64::MAX), 429_496_730);
}

#[test]
fn asset_level_curve() {
    assert_eq!(calculate_asset_level(0), 1);
    assert_eq!(calculate_asset_level(49), 1);
    assert_eq!(calculate_asset_level(50), 2);
    assert_eq!(calculate_asset_level(200), 3);
    assert_eq!(calculate_asset_level(u64::MAX), 607_400_100);
}

#[test]
fn levels_never_decrease_and_start_at_one() {
    let mut prev_asset = 0u32;
    let mut prev_player = 0u32;
    let mut e: u64 = 0;
    while e <= 20_000 {
        let a = calculate_asset_level(e);
        let p = calculate_level(e);
        assert!(a >= 1 && p >= 1);
        assert!(a >= prev_asset && p >= prev_player);
        prev_asset = a;
        prev_player = p;
        e += 7;
    }
}

#[test]
fn asset_power_formula() {
    assert_eq!(calculate_asset_power(&asset(Rarity::Common, 1, 0)), 15);
    assert_eq!(calculate_asset_power(&asset(Rarity::Rare, 2, 250)), 25 + 10 + 2);
    assert_eq!(calculate_asset_power(&asset(Rarity::Epic, 3, 99)), 50 + 15);
    assert_eq!(calculate_asset_power(&asset(Rarity::Legendary, 4, 1000)), 100 + 20 + 10);
}

#[test]
fn mint_prices() {
    assert_eq!(get_mint_cost(Rarity::Common), 1_000_000_000_000_000_000);
    assert_eq!(get_mint_cost(Rarity::Rare), 2_000_000_000_000_000_000);
    assert_eq!(get_mint_cost(Rarity::Epic), 5_000_000_000_000_000_000);
    assert_eq!(get_mint_cost(Rarity::Legendary), 10_000_000_000_000_000_000);
}

#[test]
fn greeting_and_version() {
    assert_eq!(hello(), "Welcome to StardustEngine Gaming Platform v2.1!");
    assert_eq!(get_version(), "v2.1.0-complete-gaming");
}

#[test]
fn registration_happens_once() {
    let mut g = game();
    assert!(g.is_player_registered(ALICE));
    assert!(!g.is_player_registered(CAROL));
    assert_eq!(g.register_player(ALICE), Err(GameError::PlayerAlreadyRegistered));
    assert_eq!(g.get_total_players(), 2);
    let stats = g.get_player_stats(ALICE).unwrap();
    assert_eq!(stats.level, 1);
    assert_eq!(stats.experience, 0);
    assert_eq!(stats.assets_owned, 0);
    assert!(g.get_player_stats(CAROL).is_none());
    let profile = g.get_player_profile(ALICE, 77).unwrap();
    assert_eq!(profile.stardust_points, 100);
    assert_eq!(profile.active_missions, 0);
    assert_eq!(profile.joined_at, 77);
    assert!(g.get_player_profile(CAROL, 77).is_none());
}

#[test]
fn admin_grants_experience() {
    let mut g = game();
    assert_eq!(g.update_player_experience(ALICE, BOB, 500), Err(GameError::NotAdmin));
    assert_eq!(g.update_player_experience(ADMIN, CAROL, 500), Err(GameError::PlayerNotRegistered));
    g.update_player_experience(ADMIN, BOB, 500).unwrap();
    let stats = g.get_player_stats(BOB).unwrap();
    assert_eq!(stats.experience, 500);
    assert_eq!(stats.level, 3);
    assert_eq!(g.update_player_experience(ADMIN, BOB, u64::MAX), Err(GameError::Overflow));
    assert_eq!(g.get_player_stats(BOB).unwrap().experience, 500);
}

#[test]
fn minting_checks_payment_and_registration() {
    let mut g = game();
    let name = String::from("blade");
    let desc = String::from("sharp");
    assert_eq!(
        g.mint_game_asset(ALICE, AssetType::Weapon, Rarity::Rare, name.clone(), desc.clone(), COMMON_PRICE, 5),
        Err(GameError::InsufficientPayment)
    );
    assert_eq!(
        g.mint_game_asset(CAROL, AssetType::Weapon, Rarity::Common, name.clone(), desc.clone(), COMMON_PRICE, 5),
        Err(GameError::PlayerNotRegistered)
    );
    assert_eq!(
        g.mint_game_asset(ALICE, AssetType::Weapon, Rarity::Common, name.clone(), desc.clone(), COMMON_PRICE, 5),
        Ok(1)
    );
    assert_eq!(
        g.mint_game_asset(ALICE, AssetType::Skin, Rarity::Epic, name, desc, 5 * COMMON_PRICE, 6),
        Ok(2)
    );
    let a = g.get_asset(1).unwrap();
    assert_eq!(a.owner, ALICE);
    assert_eq!(a.level, 1);
    assert_eq!(a.experience, 0);
    assert_eq!(a.created_at, 5);
    assert!(g.get_asset(3).is_none());
    assert!(g.get_asset(0).is_none());
    assert_eq!(g.get_player_stats(ALICE).unwrap().assets_owned, 2);
    assert_eq!(g.get_asset_power(1), Ok(15));
    assert_eq!(g.get_asset_power(2), Ok(55));
    assert_eq!(g.get_asset_power(9), Err(GameError::AssetNotFound));
    assert_eq!(g.get_player_assets(ALICE).len(), 2);
    assert_eq!(g.get_player_assets(BOB).len(), 0);
}

#[test]
fn transfer_moves_ownership_and_counters() {
    let mut g = game();
    g.mint_game_asset(ALICE, AssetType::Weapon, Rarity::Common, String::from("a"), String::from("b"), COMMON_PRICE, 1)
        .unwrap();
    assert_eq!(g.transfer_asset(ALICE, 5, BOB), Err(GameError::AssetDoesNotExist));
    assert_eq!(g.transfer_asset(BOB, 1, ALICE), Err(GameError::NotAssetOwner));
    assert_eq!(g.transfer_asset(ALICE, 1, CAROL), Err(GameError::RecipientNotRegistered));
    g.transfer_asset(ALICE, 1, BOB).unwrap();
    assert_eq!(g.get_asset(1).unwrap().owner, BOB);
    assert_eq!(g.get_player_stats(ALICE).unwrap().assets_owned, 0);
    assert_eq!(g.get_player_stats(BOB).unwrap().assets_owned, 1);
    let bobs = g.get_player_assets(BOB);
    assert_eq!(bobs.len(), 1);
    assert_eq!(bobs[0].id, 1);
}

#[test]
fn tournaments_fill_up_and_collect_fees() {
    let mut g = game();
    assert_eq!(g.create_tournament(ALICE, String::from("cup"), 10, 1, 100, 0), Err(GameError::PrizePoolRequired));
    assert_eq!(g.create_tournament(ALICE, String::from("cup"), 10, 1, 100, 50), Ok(1));
    assert_eq!(g.join_tournament(ALICE, 2, 10), Err(GameError::TournamentNotFound));
    assert_eq!(g.join_tournament(CAROL, 1, 10), Err(GameError::PlayerNotRegistered));
    assert_eq!(g.join_tournament(ALICE, 1, 9), Err(GameError::InsufficientEntryFee));
    g.join_tournament(ALICE, 1, 10).unwrap();
    assert_eq!(g.join_tournament(BOB, 1, 10), Err(GameError::TournamentFull));
    let t = g.get_tournament(1).unwrap();
    assert_eq!(t.prize_pool, 60);
    assert_eq!(t.current_participants, 1);
    assert_eq!(t.participants, vec![ALICE]);
    assert_eq!(t.status, TournamentStatus::Registration);
    assert!(g.get_tournament(2).is_none());

    assert_eq!(g.create_tournament(BOB, String::from("open"), 0, 5, 100, 1), Ok(2));
    g.join_tournament(BOB, 2, 0).unwrap();
    assert_eq!(g.join_tournament(BOB, 2, 0), Err(GameError::AlreadyRegistered));
    g.tournaments[1].status = TournamentStatus::Active;
    assert_eq!(g.join_tournament(ALICE, 2, 0), Err(GameError::RegistrationClosed));
    assert_eq!(g.get_total_tournaments(), 2);
}

#[test]
fn platform_counts() {
    let mut g = game();
    g.mint_game_asset(ALICE, AssetType::Weapon, Rarity::Common, String::from("a"), String::from("b"), COMMON_PRICE, 1)
        .unwrap();
    g.initialize_chapter_missions(ADMIN).unwrap();
    g.initiate_battle(ALICE, BOB, vec![1], stardust_contracts::combat_system::BattleType::Casual, 2).unwrap();
    let s = g.get_platform_stats();
    assert_eq!(s.total_players, 2);
    assert_eq!(s.total_assets, 1);
    assert_eq!(s.total_tournaments, 0);
    assert_eq!(s.total_battles, 1);
    assert_eq!(s.total_missions, 1);
    assert_eq!(g.get_total_assets(), 1);
}
