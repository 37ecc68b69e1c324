use prediction_market::{
    Address, BetSide, ContractError, Event, Ledger, OraclePayload, RoundMode,
    VirtualTokenContract as Market,
};

fn address(n: u128) -> Address {
    Address { kind: 0, upper: 0, lower: n }
}

fn admin() -> Address {
    address(1)
}

fn oracle() -> Address {
    address(2)
}

fn user() -> Address {
    address(10)
}

/// A contract that nothing has been done with, with everybody's authorisation.
fn untouched() -> Ledger {
    let mut ledger = Ledger::new(soroban_sdk::Env::default(), 100, 10_000);
    ledger.authorized = vec![admin(), oracle(), user()];
    ledger
}

fn initialized() -> Ledger {
    let mut ledger = untouched();
    assert_eq!(Market::initialize(&mut ledger, admin(), oracle()), Ok(()));
    ledger
}

#[test]
fn a_new_ledger_is_empty() {
    let ledger = untouched();
    assert!(ledger.is_valid());
    assert_eq!(Market::get_admin(&ledger), None);
    assert_eq!(Market::get_oracle(&ledger), None);
    assert!(!Market::is_paused(&ledger));
    assert_eq!(Market::get_active_round(&ledger), None);
    assert_eq!(Market::get_last_round_id(&ledger), 0);
    assert_eq!(Market::balance(&ledger, user()), 0);
    assert_eq!(Market::get_pending_winnings(&ledger, user()), 0);
    assert_eq!(Market::get_user_stats(&ledger, user()).total_wins, 0);
    assert_eq!(Market::get_user_position(&ledger, user()), None);
    assert_eq!(Market::get_user_precision_prediction(&ledger, user()), None);
    assert!(Market::get_precision_predictions(&ledger).is_empty());
    assert!(Market::get_updown_positions(&ledger).is_empty());
    assert!(ledger.events.is_empty());
}

#[test]
fn initialization_sets_roles_and_windows() {
    let ledger = initialized();
    assert_eq!(Market::get_admin(&ledger), Some(admin()));
    assert_eq!(Market::get_oracle(&ledger), Some(oracle()));
    assert_eq!(ledger.storage.paused, Some(false));
    assert_eq!(ledger.storage.bet_window_ledgers, Some(6));
    assert_eq!(ledger.storage.run_window_ledgers, Some(12));
}

#[test]
fn initialization_happens_once() {
    let mut ledger = initialized();
    assert_eq!(
        Market::initialize(&mut ledger, user(), oracle()),
        Err(ContractError::AlreadyInitialized)
    );
    assert_eq!(Market::get_admin(&ledger), Some(admin()));
}

#[test]
fn the_administrator_is_not_the_oracle() {
    let mut ledger = untouched();
    assert_eq!(
        Market::initialize(&mut ledger, admin(), admin()),
        Err(ContractError::AdminIsOracle)
    );
    assert_eq!(Market::get_admin(&ledger), None);
    // This is reported even where there is an administrator already.
    let mut ledger = initialized();
    assert_eq!(
        Market::initialize(&mut ledger, admin(), admin()),
        Err(ContractError::AdminIsOracle)
    );
}

#[test]
fn nothing_runs_before_initialization() {
    let mut ledger = untouched();
    assert_eq!(Market::admin_authority(&ledger), Err(ContractError::AdminNotSet));
    assert_eq!(Market::pause_contract(&mut ledger), Err(ContractError::AdminNotSet));
    assert_eq!(Market::unpause_contract(&mut ledger), Err(ContractError::AdminNotSet));
    assert_eq!(Market::create_round(&mut ledger, 1, None), Err(ContractError::AdminNotSet));
    assert_eq!(Market::set_windows(&mut ledger, 1, 2), Err(ContractError::AdminNotSet));
    let payload = OraclePayload { price: 1, timestamp: 10_000, round_id: 100 };
    assert_eq!(
        Market::resolve_round(&mut ledger, payload),
        Err(ContractError::OracleNotSet)
    );
}

#[test]
fn authorities_are_named() {
    let ledger = initialized();
    assert_eq!(Market::admin_authority(&ledger), Ok(admin()));
    assert_eq!(Market::create_round_authority(&ledger, 5, Some(1)), Ok(admin()));
    assert_eq!(
        Market::create_round_authority(&ledger, 0, Some(2)),
        Err(ContractError::InvalidPrice)
    );
    assert_eq!(
        Market::create_round_authority(&ledger, 5, Some(2)),
        Err(ContractError::InvalidMode)
    );
    let payload = OraclePayload { price: 5, timestamp: 0, round_id: 0 };
    assert_eq!(Market::resolve_authority(&ledger, &payload), Ok(oracle()));
    let payload = OraclePayload { price: 0, timestamp: 0, round_id: 0 };
    assert_eq!(
        Market::resolve_authority(&ledger, &payload),
        Err(ContractError::InvalidPrice)
    );
}

#[test]
fn a_paused_contract_refuses() {
    let mut ledger = initialized();
    Market::mint_initial(&mut ledger, user());
    assert_eq!(Market::create_round(&mut ledger, 1_000, None), Ok(()));
    assert_eq!(Market::pause_contract(&mut ledger), Ok(()));
    assert!(Market::is_paused(&ledger));
    let paused = Err(ContractError::ContractPaused);
    assert_eq!(Market::create_round(&mut ledger, 1_000, None), paused);
    assert_eq!(Market::set_windows(&mut ledger, 5, 10), paused);
    assert_eq!(Market::place_bet(&mut ledger, user(), 5, BetSide::Up), paused);
    assert_eq!(Market::place_precision_prediction(&mut ledger, user(), 5, 5), paused);
    assert_eq!(Market::predict_price(&mut ledger, user(), 5, 5), paused);
    let payload = OraclePayload { price: 1, timestamp: 10_000, round_id: 100 };
    assert_eq!(Market::resolve_round(&mut ledger, payload), paused);
    assert_eq!(
        Market::claim_winnings(&mut ledger, user()),
        Err(ContractError::ContractPaused)
    );
    assert_eq!(Market::unpause_contract(&mut ledger), Ok(()));
    assert!(!Market::is_paused(&ledger));
    assert_eq!(Market::place_bet(&mut ledger, user(), 5, BetSide::Up), Ok(()));
}

#[test]
fn a_round_is_opened() {
    let mut ledger = initialized();
    assert_eq!(Market::create_round(&mut ledger, 2_297, None), Ok(()));
    let round = Market::get_active_round(&ledger).unwrap();
    assert_eq!(round.round_id, 1);
    assert_eq!(round.price_start, 2_297);
    assert_eq!(round.start_ledger, 100);
    assert_eq!(round.bet_end_ledger, 106);
    assert_eq!(round.end_ledger, 112);
    assert_eq!((round.pool_up, round.pool_down), (0, 0));
    assert_eq!(round.mode, RoundMode::UpDown);
    assert_eq!(Market::get_last_round_id(&ledger), 1);
    assert_eq!(
        ledger.events,
        vec![Event::RoundCreated {
            round_id: 1,
            start_price: 2_297,
            start_ledger: 100,
            bet_end_ledger: 106,
            end_ledger: 112,
            mode: 0,
        }]
    );
}

#[test]
fn the_mode_of_a_round_is_chosen() {
    let mut ledger = initialized();
    assert_eq!(Market::create_round(&mut ledger, 1, Some(1)), Ok(()));
    assert_eq!(Market::get_active_round(&ledger).unwrap().mode, RoundMode::Precision);
    let mut ledger = initialized();
    assert_eq!(Market::create_round(&mut ledger, 1, Some(0)), Ok(()));
    assert_eq!(Market::get_active_round(&ledger).unwrap().mode, RoundMode::UpDown);
}

#[test]
fn a_round_needs_a_price_and_a_mode() {
    let mut ledger = initialized();
    assert_eq!(
        Market::create_round(&mut ledger, 0, Some(7)),
        Err(ContractError::InvalidPrice)
    );
    assert_eq!(
        Market::create_round(&mut ledger, 1, Some(2)),
        Err(ContractError::InvalidMode)
    );
    assert_eq!(Market::get_active_round(&ledger), None);
    assert_eq!(Market::get_last_round_id(&ledger), 0);
}

#[test]
fn one_round_runs_at_a_time() {
    let mut ledger = initialized();
    assert_eq!(Market::create_round(&mut ledger, 1, None), Ok(()));
    assert_eq!(
        Market::create_round(&mut ledger, 2, None),
        Err(ContractError::RoundAlreadyActive)
    );
    assert_eq!(Market::get_active_round(&ledger).unwrap().price_start, 1);
}

#[test]
fn rounds_that_cannot_be_numbered_are_refused() {
    let mut ledger = initialized();
    ledger.storage.last_round_id = Some(u64::MAX);
    assert_eq!(Market::create_round(&mut ledger, 1, None), Err(ContractError::Overflow));

    let mut ledger = initialized();
    ledger.sequence = u32::MAX - 5;
    assert_eq!(Market::create_round(&mut ledger, 1, None), Err(ContractError::Overflow));
    assert_eq!(Market::get_last_round_id(&ledger), 0);

    let mut ledger = initialized();
    ledger.sequence = u32::MAX - 11;
    assert_eq!(Market::create_round(&mut ledger, 1, None), Err(ContractError::Overflow));
    assert!(ledger.events.is_empty());

    let mut ledger = initialized();
    ledger.sequence = u32::MAX - 12;
    assert_eq!(Market::create_round(&mut ledger, 1, None), Ok(()));
    assert_eq!(Market::get_active_round(&ledger).unwrap().end_ledger, u32::MAX);
}

#[test]
fn windows_are_set() {
    let mut ledger = initialized();
    assert_eq!(Market::set_windows(&mut ledger, 1_440, 2_880), Ok(()));
    assert_eq!(
        ledger.events,
        vec![Event::WindowsUpdated { bet_ledgers: 1_440, run_ledgers: 2_880 }]
    );
    assert_eq!(Market::create_round(&mut ledger, 1, None), Ok(()));
    let round = Market::get_active_round(&ledger).unwrap();
    assert_eq!((round.bet_end_ledger, round.end_ledger), (1_540, 2_980));
}

#[test]
fn windows_without_an_entry_have_their_default_length() {
    let mut ledger = initialized();
    ledger.storage.bet_window_ledgers = None;
    ledger.storage.run_window_ledgers = None;
    assert_eq!(Market::create_round(&mut ledger, 1, None), Ok(()));
    let round = Market::get_active_round(&ledger).unwrap();
    assert_eq!((round.bet_end_ledger, round.end_ledger), (106, 112));
}

#[test]
fn bad_windows_are_refused() {
    let mut ledger = initialized();
    assert_eq!(Market::set_windows(&mut ledger, 0, 5), Err(ContractError::InvalidDuration));
    assert_eq!(Market::set_windows(&mut ledger, 5, 0), Err(ContractError::InvalidDuration));
    assert_eq!(
        Market::set_windows(&mut ledger, 1_441, 2_000),
        Err(ContractError::WindowOutOfRange)
    );
    assert_eq!(
        Market::set_windows(&mut ledger, 5, 2_881),
        Err(ContractError::WindowOutOfRange)
    );
    // Out of range comes before too long for the round.
    assert_eq!(
        Market::set_windows(&mut ledger, 2_000, 5),
        Err(ContractError::WindowOutOfRange)
    );
    assert_eq!(Market::set_windows(&mut ledger, 5, 5), Err(ContractError::InvalidDuration));
    assert_eq!(Market::set_windows(&mut ledger, 6, 5), Err(ContractError::InvalidDuration));
    assert_eq!(ledger.storage.bet_window_ledgers, Some(6));
    assert!(ledger.events.is_empty());
}
