use prediction_market::{
    Address, BetSide, ContractError, Event, Ledger, OraclePayload, Positions,
    PrecisionPrediction, Predictions, UserPosition, UserStats, VirtualTokenContract as Market,
};

const MINTED: i128 = 10_000_000_000;

fn address(n: u128) -> Address {
    Address { kind: 0, upper: 0, lower: n }
}

fn admin() -> Address {
    address(1)
}

fn oracle() -> Address {
    address(2)
}

fn alice() -> Address {
    address(10)
}

fn bob() -> Address {
    address(11)
}

/// A round of a mode in which two users with the initial amount can take part.
fn round(mode: u32) -> Ledger {
    let mut ledger = Ledger::new(soroban_sdk::Env::default(), 100, 10_000);
    ledger.authorized = vec![admin(), oracle(), alice(), bob()];
    assert_eq!(Market::initialize(&mut ledger, admin(), oracle()), Ok(()));
    assert_eq!(Market::mint_initial(&mut ledger, alice()), MINTED);
    assert_eq!(Market::mint_initial(&mut ledger, bob()), MINTED);
    assert_eq!(Market::create_round(&mut ledger, 1_000, Some(mode)), Ok(()));
    ledger.events.clear();
    ledger
}

#[test]
fn new_users_are_given_tokens_once() {
    let mut ledger = Ledger::new(soroban_sdk::Env::default(), 100, 10_000);
    ledger.authorized = vec![alice()];
    assert_eq!(Market::balance(&ledger, alice()), 0);
    assert_eq!(Market::mint_initial(&mut ledger, alice()), 1000_0000000);
    assert_eq!(Market::balance(&ledger, alice()), 1000_0000000);
    assert_eq!(
        ledger.events,
        vec![Event::InitialMint { user: alice(), amount: 1000_0000000 }]
    );
    ledger.storage.balances.set(alice(), 7);
    assert_eq!(Market::mint_initial(&mut ledger, alice()), 7);
    assert_eq!(Market::balance(&ledger, alice()), 7);
    assert_eq!(ledger.events.len(), 1);
    // Not even with nothing left.
    ledger.storage.balances.set(alice(), 0);
    assert_eq!(Market::mint_initial(&mut ledger, alice()), 0);
}

#[test]
fn a_bet_is_taken() {
    let mut ledger = round(0);
    assert_eq!(Market::place_bet(&mut ledger, alice(), 300, BetSide::Up), Ok(()));
    assert_eq!(Market::place_bet(&mut ledger, bob(), 200, BetSide::Down), Ok(()));
    assert_eq!(Market::balance(&ledger, alice()), MINTED - 300);
    assert_eq!(Market::balance(&ledger, bob()), MINTED - 200);
    let round = Market::get_active_round(&ledger).unwrap();
    assert_eq!((round.pool_up, round.pool_down), (300, 200));
    assert_eq!(
        Market::get_user_position(&ledger, alice()),
        Some(UserPosition { amount: 300, side: BetSide::Up })
    );
    assert_eq!(
        Market::get_user_position(&ledger, bob()),
        Some(UserPosition { amount: 200, side: BetSide::Down })
    );
    assert_eq!(
        ledger.events,
        vec![
            Event::BetPlaced { user: alice(), round_id: 1, amount: 300, side: 0 },
            Event::BetPlaced { user: bob(), round_id: 1, amount: 200, side: 1 },
        ]
    );
    assert!(ledger.is_valid());
}

#[test]
fn the_whole_balance_can_be_bet() {
    let mut ledger = round(0);
    assert_eq!(Market::place_bet(&mut ledger, alice(), MINTED, BetSide::Up), Ok(()));
    assert_eq!(Market::balance(&ledger, alice()), 0);
}

#[test]
fn bad_bets_are_refused() {
    let mut ledger = round(0);
    for amount in [0, -1, i128::MIN] {
        assert_eq!(
            Market::place_bet(&mut ledger, alice(), amount, BetSide::Up),
            Err(ContractError::InvalidBetAmount)
        );
    }
    assert_eq!(
        Market::place_bet(&mut ledger, alice(), MINTED + 1, BetSide::Up),
        Err(ContractError::InsufficientBalance)
    );
    assert_eq!(
        Market::place_bet(&mut ledger, oracle(), 1, BetSide::Up),
        Err(ContractError::InsufficientBalance)
    );
    assert_eq!(Market::place_bet(&mut ledger, alice(), 1, BetSide::Up), Ok(()));
    assert_eq!(
        Market::place_bet(&mut ledger, alice(), 1, BetSide::Down),
        Err(ContractError::AlreadyBet)
    );
    assert_eq!(Market::balance(&ledger, alice()), MINTED - 1);
    ledger.sequence = 105;
    assert_eq!(Market::place_bet(&mut ledger, bob(), 1, BetSide::Up), Ok(()));
    ledger.sequence = 106;
    assert_eq!(
        Market::place_bet(&mut ledger, bob(), 1, BetSide::Up),
        Err(ContractError::RoundEnded)
    );
}

#[test]
fn bets_need_an_updown_round() {
    let mut ledger = round(1);
    assert_eq!(
        Market::place_bet(&mut ledger, alice(), 1, BetSide::Up),
        Err(ContractError::WrongModeForPrediction)
    );
    ledger.storage.active_round = None;
    assert_eq!(
        Market::place_bet(&mut ledger, alice(), 1, BetSide::Up),
        Err(ContractError::NoActiveRound)
    );
}

#[test]
fn a_pool_that_does_not_fit_is_refused() {
    let mut ledger = round(0);
    let mut full = Market::get_active_round(&ledger).unwrap();
    full.pool_down = i128::MAX - 4;
    ledger.storage.active_round = Some(full);
    assert_eq!(
        Market::place_bet(&mut ledger, alice(), 5, BetSide::Down),
        Err(ContractError::Overflow)
    );
    assert_eq!(Market::balance(&ledger, alice()), MINTED);
    assert_eq!(Market::get_user_position(&ledger, alice()), None);
    assert!(ledger.events.is_empty());
    assert_eq!(Market::place_bet(&mut ledger, alice(), 4, BetSide::Down), Ok(()));
    assert_eq!(Market::get_active_round(&ledger).unwrap().pool_down, i128::MAX);
}

#[test]
fn bets_are_listed_in_the_order_of_their_users() {
    let mut ledger = round(0);
    let users = [
        Address { kind: 1, upper: 0, lower: 0 },
        Address { kind: 0, upper: 1, lower: 0 },
        Address { kind: 0, upper: 0, lower: u128::MAX },
        Address { kind: 0, upper: 0, lower: 3 },
        Address { kind: 0, upper: u128::MAX, lower: 2 },
    ];
    for (i, user) in users.iter().enumerate() {
        ledger.authorized.push(*user);
        Market::mint_initial(&mut ledger, *user);
        let amount = i as i128 + 1;
        assert_eq!(Market::place_bet(&mut ledger, *user, amount, BetSide::Up), Ok(()));
    }
    let listed: Vec<(Address, i128)> =
        Market::get_updown_positions(&ledger).iter().map(|p| (p.0, p.1.amount)).collect();
    assert_eq!(
        listed,
        vec![(users[3], 4), (users[2], 3), (users[1], 2), (users[4], 5), (users[0], 1)]
    );
}

#[test]
fn old_bets_are_read_where_there_is_no_new_one() {
    let mut ledger = round(0);
    let old = UserPosition { amount: 55, side: BetSide::Down };
    ledger.storage.positions.set(&alice(), old);
    ledger.storage.positions.set(&bob(), old);
    assert_eq!(Market::get_user_position(&ledger, alice()), Some(old));
    assert_eq!(Market::place_bet(&mut ledger, bob(), 1, BetSide::Up), Ok(()));
    assert_eq!(
        Market::get_user_position(&ledger, bob()),
        Some(UserPosition { amount: 1, side: BetSide::Up })
    );
    assert_eq!(Market::get_updown_positions(&ledger).len(), 1);
}

#[test]
fn a_prediction_is_taken() {
    let mut ledger = round(1);
    assert_eq!(Market::place_precision_prediction(&mut ledger, bob(), 300, 2_297), Ok(()));
    assert_eq!(Market::balance(&ledger, bob()), MINTED - 300);
    let prediction = PrecisionPrediction { user: bob(), predicted_price: 2_297, amount: 300 };
    assert_eq!(Market::get_user_precision_prediction(&ledger, bob()), Some(prediction));
    assert_eq!(Market::get_user_precision_prediction(&ledger, alice()), None);
    assert_eq!(
        ledger.events,
        vec![Event::PricePredicted {
            user: bob(),
            round_id: 1,
            predicted_price: 2_297,
            amount: 300,
        }]
    );
    assert_eq!(Market::predict_price(&mut ledger, alice(), 99_999_999, 7), Ok(()));
    let other = PrecisionPrediction { user: alice(), predicted_price: 99_999_999, amount: 7 };
    assert_eq!(Market::get_precision_predictions(&ledger), vec![other, prediction]);
    assert!(ledger.is_valid());
}

#[test]
fn bad_predictions_are_refused() {
    let mut ledger = round(1);
    assert_eq!(
        Market::place_precision_prediction(&mut ledger, alice(), 0, 100_000_000),
        Err(ContractError::InvalidBetAmount)
    );
    assert_eq!(
        Market::place_precision_prediction(&mut ledger, alice(), 1, 100_000_000),
        Err(ContractError::InvalidPriceScale)
    );
    assert_eq!(
        Market::place_precision_prediction(&mut ledger, alice(), MINTED + 1, 1),
        Err(ContractError::InsufficientBalance)
    );
    assert_eq!(Market::place_precision_prediction(&mut ledger, alice(), 1, 0), Ok(()));
    assert_eq!(
        Market::predict_price(&mut ledger, alice(), 1, 1),
        Err(ContractError::AlreadyBet)
    );
    assert_eq!(Market::balance(&ledger, alice()), MINTED - 1);
    ledger.sequence = 106;
    assert_eq!(
        Market::predict_price(&mut ledger, bob(), 1, 1),
        Err(ContractError::RoundEnded)
    );
    ledger.storage.active_round = None;
    assert_eq!(
        Market::predict_price(&mut ledger, bob(), 1, 1),
        Err(ContractError::NoActiveRound)
    );
    let mut ledger = round(0);
    assert_eq!(
        Market::predict_price(&mut ledger, bob(), 1, 1),
        Err(ContractError::WrongModeForPrediction)
    );
}

#[test]
fn winnings_are_claimed_once() {
    let mut ledger = round(0);
    assert_eq!(Market::claim_winnings(&mut ledger, alice()), Ok(0));
    assert!(ledger.events.is_empty());
    ledger.storage.pending_winnings.set(alice(), 250);
    ledger.storage.pending_winnings.set(bob(), 1);
    assert_eq!(Market::get_pending_winnings(&ledger, alice()), 250);
    assert_eq!(Market::claim_winnings(&mut ledger, alice()), Ok(250));
    assert_eq!(Market::balance(&ledger, alice()), MINTED + 250);
    assert_eq!(Market::get_pending_winnings(&ledger, alice()), 0);
    assert_eq!(Market::get_pending_winnings(&ledger, bob()), 1);
    assert_eq!(
        ledger.events,
        vec![Event::WinningsClaimed { user: alice(), amount: 250 }]
    );
    assert_eq!(Market::claim_winnings(&mut ledger, alice()), Ok(0));
    assert_eq!(Market::balance(&ledger, alice()), MINTED + 250);
}

#[test]
fn a_claim_that_does_not_fit_is_refused() {
    let mut ledger = round(0);
    ledger.storage.pending_winnings.set(alice(), i128::MAX - MINTED + 1);
    assert_eq!(
        Market::claim_winnings(&mut ledger, alice()),
        Err(ContractError::Overflow)
    );
    assert_eq!(Market::balance(&ledger, alice()), MINTED);
    ledger.storage.pending_winnings.set(alice(), i128::MAX - MINTED);
    assert_eq!(Market::claim_winnings(&mut ledger, alice()), Ok(i128::MAX - MINTED));
    assert_eq!(Market::balance(&ledger, alice()), i128::MAX);
}

#[test]
fn tables_hold_one_value_for_each_user() {
    let mut ledger = round(0);
    ledger.storage.user_stats.set(alice(), UserStats::new());
    let stats = UserStats { total_wins: 3, total_losses: 1, current_streak: 2, best_streak: 2 };
    ledger.storage.user_stats.set(alice(), stats);
    assert_eq!(Market::get_user_stats(&ledger, alice()), stats);
    assert_eq!(Market::get_user_stats(&ledger, bob()), UserStats::new());
    let copy = ledger.storage.user_stats.duplicate();
    ledger.storage.user_stats.remove(&alice());
    assert_eq!(ledger.storage.user_stats.get(&alice()), None);
    assert_eq!(copy.get(&alice()), Some(stats));
}

#[test]
fn invalid_states_are_recognised() {
    let host = soroban_sdk::Env::default();
    let mut ledger = round(0);
    assert!(ledger.is_valid());
    ledger.storage.updown_positions.set(&bob(), UserPosition { amount: 0, side: BetSide::Up });
    assert!(!ledger.is_valid());
    ledger.storage.updown_positions = Positions::new(&host);
    assert!(ledger.is_valid());
    ledger.storage.precision_positions.set(PrecisionPrediction {
        user: bob(),
        predicted_price: 1,
        amount: -1,
    });
    assert!(!ledger.is_valid());
    ledger.storage.precision_positions = Predictions::new(&host);
    assert!(ledger.is_valid());
    let mut round = Market::get_active_round(&ledger).unwrap();
    round.pool_down = -1;
    ledger.storage.active_round = Some(round);
    assert!(!ledger.is_valid());
}

#[test]
fn stakes_are_replaced_and_found_again() {
    let host = soroban_sdk::Env::default();
    let mut positions = Positions::new(&host);
    assert!(!positions.contains_key(&alice()));
    positions.set(&alice(), UserPosition { amount: i128::MAX, side: BetSide::Up });
    positions.set(&alice(), UserPosition { amount: 5, side: BetSide::Down });
    assert!(positions.contains_key(&alice()));
    assert_eq!(
        positions.get(&alice()),
        Some(UserPosition { amount: 5, side: BetSide::Down })
    );
    assert_eq!(positions.get(&bob()), None);
    assert_eq!(positions.keys(), vec![alice()]);
}

#[test]
fn no_stake_is_taken_when_the_round_can_be_resolved() {
    let mut ledger = round(0);
    ledger.sequence = 112;
    assert_eq!(
        Market::place_bet(&mut ledger, alice(), 1, BetSide::Up),
        Err(ContractError::RoundEnded)
    );
    let payload = OraclePayload { price: 1, timestamp: 10_000, round_id: 100 };
    assert_eq!(Market::resolve_round(&mut ledger, payload), Ok(()));
}
