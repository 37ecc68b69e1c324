use prediction_market::shortlist::Shortlist;
use prediction_market::{
    Address, BetSide, ContractError, Event, Ledger, OraclePayload, PrecisionPrediction,
    UserPosition, UserStats, VirtualTokenContract as Market,
};

const MINTED: i128 = 10_000_000_000;

fn address(n: u128) -> Address {
    Address { kind: 0, upper: 0, lower: n }
}

fn admin() -> Address {
    address(1)
}

fn oracle() -> Address {
    address(2)
}

/// The users, in ascending order.
fn user(n: u128) -> Address {
    address(10 + n)
}

fn open(ledger: &mut Ledger, price: u128, mode: u32) {
    assert_eq!(Market::create_round(ledger, price, Some(mode)), Ok(()));
    ledger.events.clear();
}

fn market(mode: u32) -> Ledger {
    let mut ledger = Ledger::new(soroban_sdk::Env::default(), 100, 10_000);
    ledger.authorized = vec![admin(), oracle()];
    assert_eq!(Market::initialize(&mut ledger, admin(), oracle()), Ok(()));
    for n in 0..4 {
        ledger.authorized.push(user(n));
        assert_eq!(Market::mint_initial(&mut ledger, user(n)), MINTED);
    }
    open(&mut ledger, 1_000, mode);
    ledger
}

/// Resolves the round in the first ledger in which that is possible.
fn resolve(ledger: &mut Ledger, price: u128) -> Result<(), ContractError> {
    let round = Market::get_active_round(ledger).unwrap();
    ledger.sequence = round.end_ledger;
    let payload =
        OraclePayload { price, timestamp: ledger.timestamp, round_id: round.start_ledger };
    Market::resolve_round(ledger, payload)
}

fn bet(ledger: &mut Ledger, n: u128, amount: i128, side: BetSide) {
    assert_eq!(Market::place_bet(ledger, user(n), amount, side), Ok(()));
}

fn predict(ledger: &mut Ledger, n: u128, amount: i128, price: u128) {
    assert_eq!(Market::predict_price(ledger, user(n), price, amount), Ok(()));
}

fn pending(ledger: &Ledger) -> Vec<i128> {
    (0..4).map(|n| Market::get_pending_winnings(ledger, user(n))).collect()
}

fn records(ledger: &Ledger) -> Vec<(u32, u32)> {
    (0..4)
        .map(|n| {
            let stats = Market::get_user_stats(ledger, user(n));
            (stats.total_wins, stats.total_losses)
        })
        .collect()
}

fn worth(ledger: &Ledger) -> i128 {
    (0..4)
        .map(|n| {
            let staked = match Market::get_user_position(ledger, user(n)) {
                Some(position) => position.amount,
                None => 0,
            };
            let predicted = match Market::get_user_precision_prediction(ledger, user(n)) {
                Some(prediction) => prediction.amount,
                None => 0,
            };
            Market::balance(ledger, user(n))
                + Market::get_pending_winnings(ledger, user(n))
                + staked
                + predicted
        })
        .sum()
}

#[test]
fn winners_share_the_losing_pool_in_proportion() {
    let mut ledger = market(0);
    bet(&mut ledger, 0, 100, BetSide::Up);
    bet(&mut ledger, 1, 300, BetSide::Up);
    bet(&mut ledger, 2, 150, BetSide::Down);
    bet(&mut ledger, 3, 50, BetSide::Down);
    ledger.events.clear();
    assert_eq!(resolve(&mut ledger, 1_001), Ok(()));
    assert_eq!(pending(&ledger), vec![150, 450, 0, 0]);
    assert_eq!(records(&ledger), vec![(1, 0), (1, 0), (0, 1), (0, 1)]);
    assert_eq!(worth(&ledger), 4 * MINTED);
    assert_eq!(
        ledger.events,
        vec![Event::RoundResolved { round_id: 1, final_price: 1_001, mode: 0 }]
    );
}

#[test]
fn a_falling_price_pays_the_other_side() {
    let mut ledger = market(0);
    bet(&mut ledger, 0, 100, BetSide::Up);
    bet(&mut ledger, 1, 300, BetSide::Down);
    assert_eq!(resolve(&mut ledger, 999), Ok(()));
    assert_eq!(pending(&ledger), vec![0, 400, 0, 0]);
    assert_eq!(records(&ledger), vec![(0, 1), (1, 0), (0, 0), (0, 0)]);
}

#[test]
fn shares_are_rounded_down() {
    let mut ledger = market(0);
    bet(&mut ledger, 0, 1, BetSide::Up);
    bet(&mut ledger, 1, 1, BetSide::Up);
    bet(&mut ledger, 2, 1, BetSide::Up);
    bet(&mut ledger, 3, 2, BetSide::Down);
    assert_eq!(resolve(&mut ledger, 2_000), Ok(()));
    assert_eq!(pending(&ledger), vec![1, 1, 1, 0]);
    // Two units are lost, fewer than there are winners.
    assert_eq!(worth(&ledger), 4 * MINTED - 2);
}

#[test]
fn an_unchanged_price_gives_every_bet_back() {
    let mut ledger = market(0);
    bet(&mut ledger, 0, 100, BetSide::Up);
    bet(&mut ledger, 2, 70, BetSide::Down);
    assert_eq!(resolve(&mut ledger, 1_000), Ok(()));
    assert_eq!(pending(&ledger), vec![100, 0, 70, 0]);
    assert_eq!(records(&ledger), vec![(0, 0); 4]);
    assert_eq!(worth(&ledger), 4 * MINTED);
}

#[test]
fn nothing_is_paid_where_nobody_bet_on_the_winning_side() {
    let mut ledger = market(0);
    bet(&mut ledger, 0, 100, BetSide::Down);
    assert_eq!(resolve(&mut ledger, 1_500), Ok(()));
    assert_eq!(pending(&ledger), vec![0; 4]);
    assert_eq!(records(&ledger), vec![(0, 0); 4]);
    assert_eq!(worth(&ledger), 4 * MINTED - 100);
}

#[test]
fn claims_add_up_over_rounds() {
    let mut ledger = market(0);
    bet(&mut ledger, 0, 100, BetSide::Up);
    bet(&mut ledger, 1, 10, BetSide::Down);
    assert_eq!(resolve(&mut ledger, 1_001), Ok(()));
    open(&mut ledger, 1_000, 1);
    predict(&mut ledger, 0, 5, 1_000);
    assert_eq!(resolve(&mut ledger, 1_000), Ok(()));
    assert_eq!(pending(&ledger), vec![115, 0, 0, 0]);
    assert_eq!(Market::claim_winnings(&mut ledger, user(0)), Ok(115));
    assert_eq!(Market::balance(&ledger, user(0)), MINTED + 10);
}

#[test]
fn the_closest_prediction_takes_the_pot() {
    let mut ledger = market(1);
    predict(&mut ledger, 0, 100, 2_000);
    predict(&mut ledger, 1, 200, 2_290);
    predict(&mut ledger, 2, 300, 2_310);
    ledger.events.clear();
    assert_eq!(resolve(&mut ledger, 2_298), Ok(()));
    assert_eq!(pending(&ledger), vec![0, 600, 0, 0]);
    assert_eq!(records(&ledger), vec![(0, 1), (1, 0), (0, 1), (0, 0)]);
    assert_eq!(worth(&ledger), 4 * MINTED);
    assert_eq!(
        ledger.events,
        vec![Event::RoundResolved { round_id: 1, final_price: 2_298, mode: 1 }]
    );
}

#[test]
fn equally_close_predictions_split_the_pot() {
    let mut ledger = market(1);
    // From both sides of the price, in another order than that of the users.
    predict(&mut ledger, 3, 1, 2_290);
    predict(&mut ledger, 1, 4, 2_310);
    predict(&mut ledger, 2, 5, 2_290);
    predict(&mut ledger, 0, 1, 2_311);
    assert_eq!(resolve(&mut ledger, 2_300), Ok(()));
    // 11 is 3 for each of three, and 2 more for the first of them.
    assert_eq!(pending(&ledger), vec![0, 5, 3, 3]);
    assert_eq!(records(&ledger), vec![(0, 1), (1, 0), (1, 0), (1, 0)]);
    assert_eq!(worth(&ledger), 4 * MINTED);
}

#[test]
fn a_closer_prediction_replaces_earlier_winners() {
    let mut ledger = market(1);
    predict(&mut ledger, 0, 10, 90);
    predict(&mut ledger, 1, 10, 110);
    predict(&mut ledger, 2, 10, 101);
    predict(&mut ledger, 3, 10, 99);
    assert_eq!(resolve(&mut ledger, 100), Ok(()));
    assert_eq!(pending(&ledger), vec![0, 0, 20, 20]);
}

#[test]
fn a_round_without_stakes_is_resolved() {
    for mode in 0..2 {
        let mut ledger = market(mode);
        assert_eq!(resolve(&mut ledger, 5_000), Ok(()));
        assert_eq!(pending(&ledger), vec![0; 4]);
        assert_eq!(records(&ledger), vec![(0, 0); 4]);
        assert_eq!(Market::get_active_round(&ledger), None);
    }
}

#[test]
fn a_resolved_round_is_over() {
    let mut ledger = market(0);
    bet(&mut ledger, 0, 100, BetSide::Up);
    let old = UserPosition { amount: 1, side: BetSide::Up };
    ledger.storage.positions.set(&user(3), old);
    let round = Market::get_active_round(&ledger).unwrap();
    assert_eq!(resolve(&mut ledger, 1_001), Ok(()));
    assert_eq!(Market::get_active_round(&ledger), None);
    assert_eq!(Market::get_user_position(&ledger, user(0)), None);
    assert_eq!(Market::get_user_position(&ledger, user(3)), None);
    assert!(Market::get_updown_positions(&ledger).is_empty());
    let payload = OraclePayload { price: 1_001, timestamp: 10_000, round_id: round.start_ledger };
    assert_eq!(
        Market::resolve_round(&mut ledger, payload),
        Err(ContractError::NoActiveRound)
    );
    // Nor does the same data resolve the next round.
    open(&mut ledger, 1_000, 0);
    ledger.sequence += 12;
    assert_eq!(
        Market::resolve_round(&mut ledger, payload),
        Err(ContractError::InvalidOracleRound)
    );
    assert_eq!(Market::get_last_round_id(&ledger), 2);
}

#[test]
fn bad_oracle_data_is_refused() {
    let mut ledger = market(0);
    bet(&mut ledger, 0, 100, BetSide::Up);
    ledger.sequence = 112;
    let good = OraclePayload { price: 1_001, timestamp: 10_000, round_id: 100 };
    assert_eq!(
        Market::resolve_round(&mut ledger, OraclePayload { price: 0, ..good }),
        Err(ContractError::InvalidPrice)
    );
    assert_eq!(
        Market::resolve_round(&mut ledger, OraclePayload { round_id: 1, ..good }),
        Err(ContractError::InvalidOracleRound)
    );
    assert_eq!(
        Market::resolve_round(&mut ledger, OraclePayload { timestamp: 10_001, ..good }),
        Err(ContractError::FutureOracleData)
    );
    assert_eq!(
        Market::resolve_round(&mut ledger, OraclePayload { timestamp: u64::MAX, ..good }),
        Err(ContractError::FutureOracleData)
    );
    assert_eq!(
        Market::resolve_round(&mut ledger, OraclePayload { timestamp: 9_699, ..good }),
        Err(ContractError::StaleOracleData)
    );
    ledger.sequence = 111;
    assert_eq!(
        Market::resolve_round(&mut ledger, good),
        Err(ContractError::RoundNotEnded)
    );
    assert_eq!(pending(&ledger), vec![0; 4]);
    ledger.sequence = 112;
    assert_eq!(
        Market::resolve_round(&mut ledger, OraclePayload { timestamp: 9_700, ..good }),
        Ok(())
    );
    assert_eq!(pending(&ledger), vec![100, 0, 0, 0]);
}

#[test]
fn streaks_are_counted() {
    let mut ledger = market(0);
    for price in [1_001, 1_001, 999, 1_001] {
        bet(&mut ledger, 0, 1, BetSide::Up);
        bet(&mut ledger, 1, 1, BetSide::Down);
        assert_eq!(resolve(&mut ledger, price), Ok(()));
        open(&mut ledger, 1_000, 0);
    }
    assert_eq!(
        Market::get_user_stats(&ledger, user(0)),
        UserStats { total_wins: 3, total_losses: 1, current_streak: 1, best_streak: 2 }
    );
    assert_eq!(
        Market::get_user_stats(&ledger, user(1)),
        UserStats { total_wins: 1, total_losses: 3, current_streak: 0, best_streak: 1 }
    );
}

#[test]
fn a_settlement_that_does_not_fit_changes_nothing() {
    let mut ledger = market(0);
    bet(&mut ledger, 0, 100, BetSide::Up);
    bet(&mut ledger, 1, 100, BetSide::Up);
    bet(&mut ledger, 2, 100, BetSide::Down);
    ledger.events.clear();
    let full = UserStats { total_wins: 0, total_losses: u32::MAX, current_streak: 0, best_streak: 0 };
    ledger.storage.user_stats.set(user(2), full);
    assert_eq!(resolve(&mut ledger, 1_001), Err(ContractError::Overflow));
    assert_eq!(pending(&ledger), vec![0; 4]);
    assert_eq!(records(&ledger), vec![(0, 0), (0, 0), (0, u32::MAX), (0, 0)]);
    assert_eq!(Market::get_updown_positions(&ledger).len(), 3);
    assert!(Market::get_active_round(&ledger).is_some());
    assert!(ledger.events.is_empty());
    ledger.storage.user_stats.remove(&user(2));
    assert_eq!(resolve(&mut ledger, 1_001), Ok(()));
    assert_eq!(pending(&ledger), vec![150, 150, 0, 0]);
}

#[test]
fn counts_and_claims_that_do_not_fit_are_refused() {
    for full in [
        UserStats { total_wins: u32::MAX, total_losses: 0, current_streak: 0, best_streak: 0 },
        UserStats { total_wins: 0, total_losses: 0, current_streak: u32::MAX, best_streak: 0 },
    ] {
        for mode in 0..2 {
            let mut ledger = market(mode);
            if mode == 0 {
                bet(&mut ledger, 0, 100, BetSide::Up);
            } else {
                predict(&mut ledger, 0, 100, 1_001);
            }
            ledger.storage.user_stats.set(user(0), full);
            assert_eq!(resolve(&mut ledger, 1_001), Err(ContractError::Overflow));
            assert_eq!(pending(&ledger), vec![0; 4]);
        }
    }
    for (mode, price) in [(0, 1_000), (0, 1_001), (1, 1_000)] {
        let mut ledger = market(mode);
        if mode == 0 {
            bet(&mut ledger, 0, 100, BetSide::Up);
        } else {
            predict(&mut ledger, 0, 100, 1_001);
        }
        ledger.storage.pending_winnings.set(user(0), i128::MAX - 99);
        assert_eq!(resolve(&mut ledger, price), Err(ContractError::Overflow));
        assert_eq!(Market::get_pending_winnings(&ledger, user(0)), i128::MAX - 99);
        ledger.storage.pending_winnings.set(user(0), i128::MAX - 100);
        assert_eq!(resolve(&mut ledger, price), Ok(()));
        assert_eq!(Market::get_pending_winnings(&ledger, user(0)), i128::MAX);
    }
}

#[test]
fn payouts_that_cannot_be_computed_are_refused() {
    let mut ledger = market(0);
    bet(&mut ledger, 0, 2, BetSide::Up);
    let mut round = Market::get_active_round(&ledger).unwrap();
    round.pool_down = i128::MAX / 2 + 1;
    ledger.storage.active_round = Some(round);
    assert_eq!(resolve(&mut ledger, 1_001), Err(ContractError::Overflow));
    round.pool_down = i128::MAX / 2;
    ledger.storage.active_round = Some(round);
    assert_eq!(resolve(&mut ledger, 1_001), Ok(()));
    assert_eq!(Market::get_pending_winnings(&ledger, user(0)), i128::MAX / 2 + 2);
}

#[test]
fn a_pot_that_does_not_fit_is_refused() {
    let mut ledger = market(1);
    ledger.storage.balances.set(user(0), i128::MAX);
    predict(&mut ledger, 0, i128::MAX, 1);
    predict(&mut ledger, 1, 1, 2);
    assert_eq!(resolve(&mut ledger, 2), Err(ContractError::Overflow));
    assert_eq!(records(&ledger), vec![(0, 0); 4]);
}

#[test]
fn larger_bets_are_paid_more() {
    let mut ledger = market(0);
    bet(&mut ledger, 0, 10, BetSide::Down);
    bet(&mut ledger, 1, 11, BetSide::Down);
    bet(&mut ledger, 2, 30, BetSide::Down);
    bet(&mut ledger, 3, 100, BetSide::Up);
    assert_eq!(resolve(&mut ledger, 1), Ok(()));
    // 10 * 100 / 51, 11 * 100 / 51 and 30 * 100 / 51, each rounded down.
    assert_eq!(pending(&ledger), vec![10 + 19, 11 + 21, 30 + 58, 0]);
}

#[test]
fn rounds_leave_the_settings_alone() {
    let mut ledger = market(0);
    assert_eq!(Market::set_windows(&mut ledger, 3, 4), Ok(()));
    bet(&mut ledger, 0, 10, BetSide::Up);
    assert_eq!(resolve(&mut ledger, 1_001), Ok(()));
    assert_eq!(Market::claim_winnings(&mut ledger, user(0)), Ok(10));
    assert_eq!(Market::get_admin(&ledger), Some(admin()));
    assert_eq!(Market::get_oracle(&ledger), Some(oracle()));
    assert!(!Market::is_paused(&ledger));
    assert_eq!(ledger.storage.bet_window_ledgers, Some(3));
    assert_eq!(ledger.storage.run_window_ledgers, Some(4));
}

#[test]
fn bystanders_are_left_alone() {
    let mut ledger = market(0);
    bet(&mut ledger, 0, 10, BetSide::Up);
    bet(&mut ledger, 1, 10, BetSide::Down);
    let stats = UserStats { total_wins: 4, total_losses: 2, current_streak: 1, best_streak: 2 };
    ledger.storage.user_stats.set(user(2), stats);
    ledger.storage.pending_winnings.set(user(2), 33);
    assert_eq!(resolve(&mut ledger, 1_001), Ok(()));
    assert_eq!(Market::get_user_stats(&ledger, user(2)), stats);
    assert_eq!(pending(&ledger), vec![20, 0, 33, 0]);
    assert_eq!(Market::balance(&ledger, user(2)), MINTED);
}

#[test]
fn lists_keep_their_order() {
    let host = soroban_sdk::Env::default();
    let mut shortlist = Shortlist::new(&host);
    assert_eq!(shortlist.len(), 0);
    assert_eq!(shortlist.get(0), None);
    let first = PrecisionPrediction {
        user: Address { kind: 1, upper: u128::MAX, lower: 3 },
        predicted_price: u128::MAX - 1,
        amount: i128::MIN,
    };
    let second = PrecisionPrediction { user: user(0), predicted_price: 5, amount: 7 };
    shortlist.push_back(first);
    shortlist.push_back(second);
    assert_eq!(shortlist.len(), 2);
    assert_eq!(shortlist.get(0), Some(first));
    assert_eq!(shortlist.get(1), Some(second));
    assert_eq!(shortlist.get(2), None);
}
