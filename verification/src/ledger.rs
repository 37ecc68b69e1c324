//! What a request finds and leaves behind.

use crate::address::Address;
use crate::stakes::{lemma_lists, Positions, Predictions};
use crate::state::State;
use crate::table::Table;
use crate::types::{Event, PrecisionPrediction, Round, UserStats};
use vstd::prelude::*;

verus! {

/// What the contract keeps between requests.
pub struct Storage {
    pub admin: Option<Address>,
    pub oracle: Option<Address>,
    pub paused: Option<bool>,
    pub bet_window_ledgers: Option<u32>,
    pub run_window_ledgers: Option<u32>,
    pub last_round_id: Option<u64>,
    pub active_round: Option<Round>,
    /// Bets that were stored before rounds had a mode. They are read, never added to.
    pub positions: Positions,
    pub updown_positions: Positions,
    pub precision_positions: Predictions,
    pub balances: Table<i128>,
    pub pending_winnings: Table<i128>,
    pub user_stats: Table<UserStats>,
}

/// One request's surroundings: the ledger that it runs in, who has authorised it, what the
/// contract keeps, and the events that it announces.
pub struct Ledger {
    /// Where the maps of stakes live.
    pub host: soroban_sdk::Env,
    /// The number of the current ledger.
    pub sequence: u32,
    /// The current time, in seconds.
    pub timestamp: u64,
    /// Who has authorised the request.
    pub authorized: Vec<Address>,
    pub storage: Storage,
    pub events: Vec<Event>,
}

impl View for Ledger {
    type V = State;

    open spec fn view(&self) -> State {
        State {
            sequence: self.sequence,
            timestamp: self.timestamp,
            authorized: self.authorized@,
            admin: self.storage.admin,
            oracle: self.storage.oracle,
            paused: self.storage.paused,
            bet_window_ledgers: self.storage.bet_window_ledgers,
            run_window_ledgers: self.storage.run_window_ledgers,
            last_round_id: self.storage.last_round_id,
            active_round: self.storage.active_round,
            positions: self.storage.positions@,
            updown_positions: self.storage.updown_positions@,
            precision_positions: self.storage.precision_positions@,
            balances: self.storage.balances@,
            pending_winnings: self.storage.pending_winnings@,
            user_stats: self.storage.user_stats@,
            events: self.events@,
        }
    }
}

impl Storage {
    /// Each table and each map is in order.
    pub open spec fn wf(&self) -> bool {
        &&& self.positions.wf()
        &&& self.updown_positions.wf()
        &&& self.precision_positions.wf()
        &&& self.balances.wf()
        &&& self.pending_winnings.wf()
        &&& self.user_stats.wf()
    }

    /// The storage of a contract that nothing has been done with yet.
    pub fn new(host: &soroban_sdk::Env) -> (storage: Storage)
        ensures
            storage.wf(),
            storage.admin is None,
            storage.oracle is None,
            storage.paused is None,
            storage.bet_window_ledgers is None,
            storage.run_window_ledgers is None,
            storage.last_round_id is None,
            storage.active_round is None,
            storage.positions@.is_empty(),
            storage.updown_positions@.is_empty(),
            storage.precision_positions@.is_empty(),
            storage.balances@.is_empty(),
            storage.pending_winnings@.is_empty(),
            storage.user_stats@.is_empty(),
    {
        Storage {
            admin: None,
            oracle: None,
            paused: None,
            bet_window_ledgers: None,
            run_window_ledgers: None,
            last_round_id: None,
            active_round: None,
            positions: Positions::new(host),
            updown_positions: Positions::new(host),
            precision_positions: Predictions::new(host),
            balances: Table::new(),
            pending_winnings: Table::new(),
            user_stats: Table::new(),
        }
    }
}

impl Ledger {
    /// The tables are in order, and the state is a valid one.
    pub open spec fn wf(&self) -> bool {
        self.storage.wf() && self@.wf()
    }

    /// A new contract, in a given ledger and at a given time.
    pub fn new(host: soroban_sdk::Env, sequence: u32, timestamp: u64) -> (ledger: Ledger)
        ensures
            ledger.wf(),
            ledger@ == State::fresh(sequence, timestamp),
    {
        let storage = Storage::new(&host);
        let ledger = Ledger {
            host,
            sequence,
            timestamp,
            authorized: Vec::new(),
            storage,
            events: Vec::new(),
        };
        assert(ledger@ =~= State::fresh(sequence, timestamp));
        ledger
    }

    /// Whether the state is a valid one, which a storage that was filled by hand may not be.
    pub fn is_valid(&self) -> (valid: bool)
        requires
            self.storage.wf(),
        ensures
            valid == self.wf(),
    {
        proof {
            self.storage.updown_positions.lemma_finite();
            self.storage.precision_positions.lemma_shape();
            self.storage.balances.lemma_finite();
            self.storage.pending_winnings.lemma_finite();
            self.storage.user_stats.lemma_finite();
        }
        if let Some(round) = self.storage.active_round {
            if round.pool_up < 0 || round.pool_down < 0 {
                return false;
            }
        }
        let bettors = self.storage.updown_positions.keys();
        let mut i: usize = 0;
        proof {
            lemma_lists(bettors@, self@.updown_positions.dom());
        }
        while i < bettors.len()
            invariant
                self.storage.wf(),
                i <= bettors@.len(),
                forall|j: int|
                    0 <= j < bettors@.len() ==> self@.updown_positions.contains_key(
                        #[trigger] bettors@[j],
                    ),
                forall|j: int|
                    0 <= j < i ==> self@.updown_positions[#[trigger] bettors@[j]].amount > 0,
            decreases bettors@.len() - i,
        {
            let user = bettors[i];
            assert(self@.updown_positions.contains_key(bettors@[i as int]));
            if let Some(position) = self.storage.updown_positions.get(&user) {
                if position.amount <= 0 {
                    return false;
                }
            }
            i += 1;
        }
        let predictions = self.storage.precision_positions.values();
        let mut k: usize = 0;
        let ghost users = predictions@.map_values(|p: PrecisionPrediction| p.user);
        proof {
            lemma_lists(users, self@.precision_positions.dom());
        }
        while k < predictions.len()
            invariant
                k <= predictions@.len(),
                users == predictions@.map_values(
                    |p: PrecisionPrediction| p.user,
                ),
                forall|j: int|
                    0 <= j < users.len() ==> self@.precision_positions.contains_key(
                        #[trigger] users[j],
                    ),
                forall|j: int|
                    0 <= j < predictions@.len()
                        ==> self@.precision_positions[(#[trigger] predictions@[j]).user]
                        == predictions@[j],
                forall|j: int| 0 <= j < k ==> (#[trigger] predictions@[j]).amount > 0,
            decreases predictions@.len() - k,
        {
            if predictions[k].amount <= 0 {
                assert(self@.precision_positions.contains_key(users[k as int]));
                return false;
            }
            k += 1;
        }
        assert forall|u: Address| #[trigger] self@.updown_positions.contains_key(u) implies
            self@.updown_positions[u].amount > 0 by {
            let j = choose|j: int| 0 <= j < bettors@.len() && bettors@[j] == u;
            assert(self@.updown_positions[bettors@[j]].amount > 0);
        }
        assert forall|u: Address| #[trigger] self@.precision_positions.contains_key(u) implies
            self@.precision_positions[u].amount > 0 by {
            let j = choose|j: int| 0 <= j < users.len() && users[j] == u;
            assert(predictions@[j].amount > 0);
        }
        true
    }
}

} // verus!
