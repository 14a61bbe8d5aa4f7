use stardust_contracts::combat_system::{check_battle_end_conditions, BattleStatus, BattleType, MoveType};
use stardust_contracts::platform::{Address, AssetType, GameError, Rarity, StardustContracts};

const ADMIN: Address = Address(1);
const ALICE: Address = Address(10);
const BOB: Address = Address(11);
const CAROL: Address = Address(12);
const COMMON_PRICE: u128 = 1_000_000_000_000_000_000;

fn game() -> StardustContracts {
    let mut g = StardustContracts::init(ADMIN);
    g.register_player(ALICE).unwrap();
    g.register_player(BOB).unwrap();
    g
}

fn mint_common(g: &mut StardustContracts, who: Address) -> u64 {
    g.mint_game_asset(who, AssetType::Character, Rarity::Common, String::from("scout"), String::from("fast"), COMMON_PRICE, 3)
        .unwrap()
}

/// Plays alternating moves until the battle leaves the active state.
fn play_out(g: &mut StardustContracts, id: u64, a_asset: u64, a_move: MoveType, b_asset: u64, b_move: MoveType) -> u32 {
    let mut moves = 0u32;
    while g.get_battle(id).unwrap().status == BattleStatus::Active {
        let turn = g.get_battle(id).unwrap().turn;
        if turn % 2 == 1 {
            g.make_move(ALICE, id, a_asset, a_move, None, 100 + turn as u64).unwrap();
        } else {
            g.make_move(BOB, id, b_asset, b_move, Some(a_asset), 100 + turn as u64).unwrap();
        }
        moves += 1;
    }
    moves
}

#[test]
fn initiate_checks_parties_and_assets() {
    let mut g = game();
    let a1 = mint_common(&mut g, ALICE);
    let b1 = mint_common(&mut g, BOB);
    assert_eq!(g.initiate_battle(CAROL, BOB, vec![], BattleType::Casual, 1), Err(GameError::PlayerNotRegistered));
    assert_eq!(g.initiate_battle(ALICE, CAROL, vec![], BattleType::Casual, 1), Err(GameError::OpponentNotRegistered));
    assert_eq!(g.initiate_battle(ALICE, BOB, vec![a1, a1, a1, a1], BattleType::Ranked, 1), Err(GameError::TooManyAssets));
    assert_eq!(g.initiate_battle(ALICE, BOB, vec![b1], BattleType::Ranked, 1), Err(GameError::AssetNotOwned));
    assert_eq!(g.initiate_battle(ALICE, BOB, vec![99], BattleType::Ranked, 1), Err(GameError::AssetNotOwned));
    assert_eq!(g.initiate_battle(ALICE, BOB, vec![a1], BattleType::Guild, 42), Ok(1));
    let b = g.get_battle(1).unwrap();
    assert_eq!(b.status, BattleStatus::WaitingForDefender);
    assert_eq!(b.turn, 1);
    assert_eq!(b.created_at, 42);
    assert_eq!(b.attacker_assets, vec![a1]);
    assert!(b.defender_assets.is_empty());
    assert!(b.moves.is_empty());
    assert!(g.get_battle(2).is_none());
}

#[test]
fn accept_only_by_defender_and_only_once() {
    let mut g = game();
    let a1 = mint_common(&mut g, ALICE);
    let b1 = mint_common(&mut g, BOB);
    let id = g.initiate_battle(ALICE, BOB, vec![a1], BattleType::Casual, 1).unwrap();
    assert_eq!(g.accept_battle(BOB, 7, vec![b1]), Err(GameError::BattleNotFound));
    assert_eq!(g.accept_battle(ALICE, id, vec![b1]), Err(GameError::NotTheDefender));
    assert_eq!(g.accept_battle(BOB, id, vec![b1, b1, b1, b1]), Err(GameError::TooManyAssets));
    assert_eq!(g.accept_battle(BOB, id, vec![a1]), Err(GameError::AssetNotOwned));
    g.accept_battle(BOB, id, vec![b1]).unwrap();
    assert_eq!(g.get_battle(id).unwrap().status, BattleStatus::Active);
    assert_eq!(g.accept_battle(BOB, id, vec![]), Err(GameError::BattleAlreadyAccepted));
    let b = g.get_battle(id).unwrap();
    assert_eq!(b.defender_assets, vec![b1]);
    assert_eq!(b.status, BattleStatus::Active);
}

#[test]
fn turns_alternate_strictly() {
    let mut g = game();
    let a1 = mint_common(&mut g, ALICE);
    let b1 = mint_common(&mut g, BOB);
    let id = g.initiate_battle(ALICE, BOB, vec![a1], BattleType::Casual, 1).unwrap();
    assert_eq!(g.make_move(ALICE, id, a1, MoveType::Attack, None, 2), Err(GameError::BattleNotActive));
    g.accept_battle(BOB, id, vec![b1]).unwrap();
    assert_eq!(g.make_move(ALICE, 9, a1, MoveType::Attack, None, 2), Err(GameError::BattleNotFound));
    assert_eq!(g.make_move(BOB, id, b1, MoveType::Attack, None, 2), Err(GameError::NotYourTurn));
    assert_eq!(g.make_move(ALICE, id, b1, MoveType::Attack, None, 2), Err(GameError::AssetNotInBattle));
    g.make_move(ALICE, id, a1, MoveType::Attack, None, 2).unwrap();
    assert_eq!(g.make_move(ALICE, id, a1, MoveType::Attack, None, 3), Err(GameError::NotYourTurn));
    assert_eq!(g.make_move(BOB, id, a1, MoveType::Defend, None, 3), Err(GameError::AssetNotInBattle));
    g.make_move(BOB, id, b1, MoveType::Defend, Some(a1), 3).unwrap();
    let b = g.get_battle(id).unwrap();
    assert_eq!(b.turn, 3);
    assert_eq!(b.moves.len(), 2);
    assert_eq!(b.moves[1].player, BOB);
    assert_eq!(b.moves[1].turn, 2);
    assert_eq!(b.moves[1].target_asset, Some(a1));
    assert_eq!(b.moves[1].timestamp, 3);
}

#[test]
fn battle_against_empty_side() {
    let mut g = game();
    let a1 = mint_common(&mut g, ALICE);
    assert_eq!(g.get_asset_power(a1), Ok(15));
    let id = g.initiate_battle(ALICE, BOB, vec![a1], BattleType::Casual, 1).unwrap();
    g.accept_battle(BOB, id, vec![]).unwrap();
    g.make_move(ALICE, id, a1, MoveType::Attack, None, 2).unwrap();
    let b = g.get_battle(id).unwrap();
    assert_eq!(b.status, BattleStatus::Active);
    assert_eq!(b.turn, 2);
    assert_eq!(b.moves.len(), 1);
    assert!(!check_battle_end_conditions(b));
    // The defender committed no asset, so it has none to move with.
    assert_eq!(g.make_move(BOB, id, a1, MoveType::Attack, None, 3), Err(GameError::AssetNotInBattle));
    assert_eq!(g.get_player_stats(ALICE).unwrap().games_played, 0);
}

#[test]
fn battle_resolves_on_turn_eleven() {
    let mut g = game();
    let a1 = mint_common(&mut g, ALICE);
    let b1 = mint_common(&mut g, BOB);
    let id = g.initiate_battle(ALICE, BOB, vec![a1], BattleType::Casual, 1).unwrap();
    g.accept_battle(BOB, id, vec![b1]).unwrap();
    let played = play_out(&mut g, id, a1, MoveType::Attack, b1, MoveType::Defend);
    assert_eq!(played, 10);
    let b = g.get_battle(id).unwrap();
    assert_eq!(b.status, BattleStatus::Completed);
    assert_eq!(b.turn, 11);
    assert_eq!(b.moves.len(), 10);
    assert_eq!(g.calculate_battle_winner(b), ALICE);
    assert_eq!(g.make_move(ALICE, id, a1, MoveType::Attack, None, 200), Err(GameError::BattleNotActive));

    let alice = g.get_player_stats(ALICE).unwrap();
    assert_eq!(alice.experience, 100);
    assert_eq!(alice.level, 2);
    assert_eq!(alice.games_played, 1);
    assert_eq!(alice.games_won, 1);
    let bob = g.get_player_stats(BOB).unwrap();
    assert_eq!(bob.experience, 25);
    assert_eq!(bob.level, 1);
    assert_eq!(bob.games_played, 1);
    assert_eq!(bob.games_won, 0);
    let winner_asset = g.get_asset(a1).unwrap();
    assert_eq!(winner_asset.experience, 50);
    assert_eq!(winner_asset.level, 2);
    let loser_asset = g.get_asset(b1).unwrap();
    assert_eq!(loser_asset.experience, 10);
    assert_eq!(loser_asset.level, 1);
}

#[test]
fn tie_goes_to_attacker() {
    let mut g = game();
    let a1 = mint_common(&mut g, ALICE);
    let b1 = mint_common(&mut g, BOB);
    let id = g.initiate_battle(ALICE, BOB, vec![a1], BattleType::Casual, 1).unwrap();
    g.accept_battle(BOB, id, vec![b1]).unwrap();
    play_out(&mut g, id, a1, MoveType::Special, b1, MoveType::Special);
    assert_eq!(g.get_player_stats(ALICE).unwrap().games_won, 1);
    assert_eq!(g.get_player_stats(BOB).unwrap().games_won, 0);
}

#[test]
fn stronger_defender_wins() {
    let mut g = game();
    let a1 = mint_common(&mut g, ALICE);
    let b1 = mint_common(&mut g, BOB);
    let b2 = mint_common(&mut g, BOB);
    let id = g.initiate_battle(ALICE, BOB, vec![a1], BattleType::Ranked, 1).unwrap();
    g.accept_battle(BOB, id, vec![b1, b2]).unwrap();
    play_out(&mut g, id, a1, MoveType::Defend, b1, MoveType::Combo);
    assert_eq!(g.calculate_battle_winner(g.get_battle(id).unwrap()), BOB);
    assert_eq!(g.get_player_stats(BOB).unwrap().games_won, 1);
    assert_eq!(g.get_player_stats(BOB).unwrap().experience, 100);
    assert_eq!(g.get_player_stats(ALICE).unwrap().experience, 25);
    // Every committed asset gains experience, used in a move or not.
    assert_eq!(g.get_asset(b1).unwrap().experience, 50);
    assert_eq!(g.get_asset(b2).unwrap().experience, 50);
    assert_eq!(g.get_asset(a1).unwrap().experience, 10);
}

#[test]
fn battle_lists_per_player() {
    let mut g = game();
    g.register_player(CAROL).unwrap();
    g.initiate_battle(ALICE, BOB, vec![], BattleType::Casual, 1).unwrap();
    g.initiate_battle(BOB, CAROL, vec![], BattleType::Casual, 1).unwrap();
    g.initiate_battle(CAROL, ALICE, vec![], BattleType::Tournament, 1).unwrap();
    assert_eq!(g.get_player_battles(ALICE), vec![1, 3]);
    assert_eq!(g.get_player_battles(BOB), vec![1, 2]);
    assert_eq!(g.get_player_battles(CAROL), vec![2, 3]);
    assert_eq!(g.get_player_battles(Address(99)), Vec::<u64>::new());
}
