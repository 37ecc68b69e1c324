//! The stakes of a round, by user, in the order of the users' addresses.

use crate::address::Address;
use crate::host_map::{
    map_contains_key, map_get, map_keys, map_new, map_pairs, map_set, map_typed, HostMap,
};
use crate::types::{BetSide, PrecisionPrediction, UserPosition};
use vstd::prelude::*;

verus! {

/// Whether a list names each address of a set once, in ascending order.
pub open spec fn lists(users: Seq<Address>, set: Set<Address>) -> bool {
    &&& users.to_set() == set
    &&& forall|i: int, j: int|
        0 <= i < j < users.len() ==> (#[trigger] users[i]).precedes(#[trigger] users[j])
}

/// A list in ascending order names each address of its set, and none twice.
pub proof fn lemma_lists(users: Seq<Address>, set: Set<Address>)
    requires
        lists(users, set),
    ensures
        users.no_duplicates(),
        set.finite(),
        set.len() == users.len(),
        forall|i: int| 0 <= i < users.len() ==> set.contains(#[trigger] users[i]),
        forall|u: Address|
            set.contains(u) ==> exists|i: int| 0 <= i < users.len() && users[i] == u,
{
    vstd::seq_lib::seq_to_set_is_finite(users);
    assert(users.no_duplicates());
    users.unique_seq_to_set();
    assert forall|i: int| 0 <= i < users.len() implies set.contains(#[trigger] users[i]) by {
        assert(users.to_set().contains(users[i]));
    }
    assert forall|u: Address| set.contains(u) implies exists|i: int|
        0 <= i < users.len() && users[i] == u by {
        assert(users.to_set().contains(u));
    }
}

/// For each user an amount and the number that it is staked on.
pub struct Stakes {
    map: HostMap,
}

impl View for Stakes {
    type V = Map<Address, (i128, u128)>;

    closed spec fn view(&self) -> Map<Address, (i128, u128)> {
        Map::new(
            |user: Address| map_pairs(self.map).contains_key(user.spec_key()),
            |user: Address| map_pairs(self.map)[user.spec_key()],
        )
    }
}

impl Stakes {
    /// The map holds stakes and nothing else, and not more than there is room for.
    pub closed spec fn wf(&self) -> bool {
        &&& map_typed(self.map)
        &&& map_pairs(self.map).dom().finite()
        &&& map_pairs(self.map).dom().len() <= u32::MAX
    }

    /// There are finitely many stakes, as many as pairs in the map.
    proof fn lemma_len(&self)
        requires
            self.wf(),
        ensures
            self@.dom().finite(),
            self@.dom().len() == map_pairs(self.map).dom().len(),
    {
        let keys = map_pairs(self.map).dom();
        let of_key = |k: (u32, u128, u128)| Address::spec_of_key(k);
        assert forall|u: Address| self@.dom().contains(u) == keys.map(of_key).contains(u) by {
            if self@.dom().contains(u) {
                assert(of_key(u.spec_key()) == u);
            }
        }
        assert(self@.dom() =~= keys.map(of_key));
        keys.lemma_map_finite(of_key);
        vstd::set_lib::lemma_map_size(keys, self@.dom(), of_key);
    }

    /// There are finitely many stakes, and not more than a map has room for.
    pub proof fn lemma_finite(&self)
        requires
            self.wf(),
        ensures
            self@.dom().finite(),
            self@.dom().len() <= u32::MAX,
    {
        self.lemma_len();
    }

    /// No stakes.
    pub fn new(host: &soroban_sdk::Env) -> (stakes: Stakes)
        ensures
            stakes.wf(),
            stakes@ == Map::<Address, (i128, u128)>::empty(),
    {
        let stakes = Stakes { map: map_new(host) };
        assert(stakes@ =~= Map::<Address, (i128, u128)>::empty());
        stakes
    }

    /// Whether a user has a stake.
    pub fn contains_key(&self, user: &Address) -> (found: bool)
        requires
            self.wf(),
        ensures
            found == self@.contains_key(*user),
    {
        map_contains_key(&self.map, user.key())
    }

    /// A user's stake.
    pub fn get(&self, user: &Address) -> (stake: Option<(i128, u128)>)
        requires
            self.wf(),
        ensures
            stake == self@.get(*user),
    {
        map_get(&self.map, user.key())
    }

    /// Stores a user's stake, in place of the one before.
    pub fn set(&mut self, user: &Address, stake: (i128, u128))
        requires
            old(self).wf(),
            old(self)@.contains_key(*user) || old(self)@.len() < u32::MAX,
        ensures
            final(self).wf(),
            final(self)@ == old(self)@.insert(*user, stake),
    {
        let ghost before = *self;
        proof {
            self.lemma_len();
        }
        map_set(&mut self.map, user.key(), stake);
        proof {
            let after = before@.insert(*user, stake);
            assert forall|u: Address| #[trigger]
                self@.dom().contains(u) == after.dom().contains(u) && (self@.dom().contains(u)
                    ==> self@[u] == after[u]) by {
                if u != *user {
                    assert(u.spec_key() != user.spec_key());
                }
            }
            assert(self@ =~= after);
        }
    }

    /// The users with a stake, in ascending order.
    pub fn keys(&self) -> (users: Vec<Address>)
        requires
            self.wf(),
        ensures
            lists(users@, self@.dom()),
    {
        let keys = map_keys(&self.map);
        let mut users: Vec<Address> = Vec::new();
        let mut i: usize = 0;
        while i < keys.len()
            invariant
                i <= keys@.len(),
                users@.len() == i,
                forall|j: int| 0 <= j < i ==> (#[trigger] users@[j]).spec_key() == keys@[j],
            decreases keys@.len() - i,
        {
            users.push(Address::of_key(keys[i]));
            i += 1;
        }
        proof {
            assert forall|u: Address| users@.to_set().contains(u) == self@.dom().contains(u) by {
                if users@.to_set().contains(u) {
                    let j = choose|j: int| 0 <= j < users@.len() && users@[j] == u;
                    assert(keys@.to_set().contains(keys@[j]));
                }
                if self@.dom().contains(u) {
                    assert(keys@.to_set().contains(u.spec_key()));
                    let j = choose|j: int| 0 <= j < keys@.len() && keys@[j] == u.spec_key();
                    assert(users@[j] == u);
                }
            }
            assert(users@.to_set() =~= self@.dom());
        }
        users
    }
}

/// The bets of an Up/Down round.
pub struct Positions {
    stakes: Stakes,
}

/// The bet that a stake stands for.
pub open spec fn position_of(stake: (i128, u128)) -> UserPosition {
    UserPosition {
        amount: stake.0,
        side: if stake.1 == 0 {
            BetSide::Up
        } else {
            BetSide::Down
        },
    }
}

impl View for Positions {
    type V = Map<Address, UserPosition>;

    closed spec fn view(&self) -> Map<Address, UserPosition> {
        self.stakes@.map_values(|stake: (i128, u128)| position_of(stake))
    }
}

impl Positions {
    /// The map holds stakes and nothing else.
    pub closed spec fn wf(&self) -> bool {
        self.stakes.wf()
    }

    /// There are finitely many bets.
    pub proof fn lemma_finite(&self)
        requires
            self.wf(),
        ensures
            self@.dom().finite(),
    {
        self.stakes.lemma_finite();
        assert(self@.dom() =~= self.stakes@.dom());
    }

    /// No bets.
    pub fn new(host: &soroban_sdk::Env) -> (positions: Positions)
        ensures
            positions.wf(),
            positions@ == Map::<Address, UserPosition>::empty(),
    {
        let positions = Positions { stakes: Stakes::new(host) };
        assert(positions@ =~= Map::<Address, UserPosition>::empty());
        positions
    }

    /// Whether a user has bet.
    pub fn contains_key(&self, user: &Address) -> (found: bool)
        requires
            self.wf(),
        ensures
            found == self@.contains_key(*user),
    {
        self.stakes.contains_key(user)
    }

    /// A user's bet.
    pub fn get(&self, user: &Address) -> (position: Option<UserPosition>)
        requires
            self.wf(),
        ensures
            position == self@.get(*user),
    {
        match self.stakes.get(user) {
            Some((amount, side)) => {
                let side = if side == 0 {
                    BetSide::Up
                } else {
                    BetSide::Down
                };
                Some(UserPosition { amount, side })
            },
            None => None,
        }
    }

    /// Stores a user's bet, in place of the one before.
    pub fn set(&mut self, user: &Address, position: UserPosition)
        requires
            old(self).wf(),
            old(self)@.contains_key(*user) || old(self)@.len() < u32::MAX,
        ensures
            final(self).wf(),
            final(self)@ == old(self)@.insert(*user, position),
    {
        let ghost before = *self;
        assert(self@.dom() =~= self.stakes@.dom());
        let side: u128 = match position.side {
            BetSide::Up => 0,
            BetSide::Down => 1,
        };
        self.stakes.set(user, (position.amount, side));
        assert(self@ =~= before@.insert(*user, position));
    }

    /// The users who have bet, in ascending order.
    pub fn keys(&self) -> (users: Vec<Address>)
        requires
            self.wf(),
        ensures
            lists(users@, self@.dom()),
    {
        assert(self@.dom() =~= self.stakes@.dom());
        self.stakes.keys()
    }
}

/// The predictions of a Precision round.
pub struct Predictions {
    stakes: Stakes,
}

impl View for Predictions {
    type V = Map<Address, PrecisionPrediction>;

    closed spec fn view(&self) -> Map<Address, PrecisionPrediction> {
        self.stakes@.map_entries(
            |user: Address, stake: (i128, u128)|
                PrecisionPrediction { user, predicted_price: stake.1, amount: stake.0 },
        )
    }
}

impl Predictions {
    /// The map holds stakes and nothing else.
    pub closed spec fn wf(&self) -> bool {
        self.stakes.wf()
    }

    /// There are finitely many predictions, not more than a map has room for, and each stands
    /// under the user who made it.
    pub proof fn lemma_shape(&self)
        requires
            self.wf(),
        ensures
            self@.dom().finite(),
            self@.dom().len() <= u32::MAX,
            forall|user: Address| self@.contains_key(user) ==> (#[trigger] self@[user]).user == user,
    {
        self.stakes.lemma_finite();
        assert(self@.dom() =~= self.stakes@.dom());
    }

    /// No predictions.
    pub fn new(host: &soroban_sdk::Env) -> (predictions: Predictions)
        ensures
            predictions.wf(),
            predictions@ == Map::<Address, PrecisionPrediction>::empty(),
    {
        let predictions = Predictions { stakes: Stakes::new(host) };
        assert(predictions@ =~= Map::<Address, PrecisionPrediction>::empty());
        predictions
    }

    /// Whether a user has made a prediction.
    pub fn contains_key(&self, user: &Address) -> (found: bool)
        requires
            self.wf(),
        ensures
            found == self@.contains_key(*user),
    {
        self.stakes.contains_key(user)
    }

    /// A user's prediction.
    pub fn get(&self, user: &Address) -> (prediction: Option<PrecisionPrediction>)
        requires
            self.wf(),
        ensures
            prediction == self@.get(*user),
    {
        match self.stakes.get(user) {
            Some((amount, predicted_price)) => Some(
                PrecisionPrediction { user: *user, predicted_price, amount },
            ),
            None => None,
        }
    }

    /// Stores a prediction under its user, in place of the one before.
    pub fn set(&mut self, prediction: PrecisionPrediction)
        requires
            old(self).wf(),
            old(self)@.contains_key(prediction.user) || old(self)@.len() < u32::MAX,
        ensures
            final(self).wf(),
            final(self)@ == old(self)@.insert(prediction.user, prediction),
    {
        let ghost before = *self;
        assert(self@.dom() =~= self.stakes@.dom());
        self.stakes.set(&prediction.user, (prediction.amount, prediction.predicted_price));
        assert(self@ =~= before@.insert(prediction.user, prediction));
    }

    /// The predictions, in ascending order of their users.
    pub fn values(&self) -> (predictions: Vec<PrecisionPrediction>)
        requires
            self.wf(),
        ensures
            lists(predictions@.map_values(|p: PrecisionPrediction| p.user), self@.dom()),
            forall|i: int|
                0 <= i < predictions@.len() ==> self@[(#[trigger] predictions@[i]).user]
                    == predictions@[i],
    {
        assert(self@.dom() =~= self.stakes@.dom());
        let users = self.stakes.keys();
        let mut predictions: Vec<PrecisionPrediction> = Vec::new();
        let mut i: usize = 0;
        proof {
            lemma_lists(users@, self@.dom());
        }
        while i < users.len()
            invariant
                self.wf(),
                lists(users@, self@.dom()),
                forall|j: int| 0 <= j < users@.len() ==> self@.contains_key(#[trigger] users@[j]),
                i <= users@.len(),
                predictions@.len() == i,
                forall|j: int|
                    0 <= j < i ==> (#[trigger] predictions@[j]).user == users@[j]
                        && self@[users@[j]] == predictions@[j],
            decreases users@.len() - i,
        {
            proof {
                self.lemma_shape();
            }
            if let Some(prediction) = self.get(&users[i]) {
                predictions.push(prediction);
            }
            i += 1;
        }
        assert(predictions@.map_values(|p: PrecisionPrediction| p.user) =~= users@);
        predictions
    }
}

} // verus!
