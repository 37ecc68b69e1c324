//! A list of predictions.

use crate::address::Address;
use crate::host_vec::{vec_get, vec_items, vec_len, vec_new, vec_push_back, vec_typed, HostVec};
use crate::types::PrecisionPrediction;
use vstd::prelude::*;

verus! {

/// Predictions in the order in which they were added.
pub struct Shortlist {
    list: HostVec,
}

/// The prediction that an item stands for.
pub open spec fn prediction_of(item: (u32, u128, u128, u128, i128)) -> PrecisionPrediction {
    PrecisionPrediction {
        user: Address { kind: item.0, upper: item.1, lower: item.2 },
        predicted_price: item.3,
        amount: item.4,
    }
}

impl View for Shortlist {
    type V = Seq<PrecisionPrediction>;

    closed spec fn view(&self) -> Seq<PrecisionPrediction> {
        vec_items(self.list).map_values(
            |item: (u32, u128, u128, u128, i128)| prediction_of(item),
        )
    }
}

impl Shortlist {
    /// The list holds predictions and nothing else.
    pub closed spec fn wf(&self) -> bool {
        vec_typed(self.list)
    }

    /// No predictions.
    pub fn new(host: &soroban_sdk::Env) -> (shortlist: Shortlist)
        ensures
            shortlist.wf(),
            shortlist@ == Seq::<PrecisionPrediction>::empty(),
    {
        let shortlist = Shortlist { list: vec_new(host) };
        assert(shortlist@ =~= Seq::<PrecisionPrediction>::empty());
        shortlist
    }

    /// Adds a prediction behind the others.
    pub fn push_back(&mut self, prediction: PrecisionPrediction)
        requires
            old(self).wf(),
            old(self)@.len() < u32::MAX,
        ensures
            final(self).wf(),
            final(self)@ == old(self)@.push(prediction),
    {
        let ghost before = *self;
        let user = prediction.user;
        vec_push_back(
            &mut self.list,
            (user.kind, user.upper, user.lower, prediction.predicted_price, prediction.amount),
        );
        assert(self@ =~= before@.push(prediction));
    }

    /// How many predictions there are.
    pub fn len(&self) -> (n: u32)
        ensures
            n == self@.len(),
    {
        vec_len(&self.list)
    }

    /// The prediction at a place.
    pub fn get(&self, i: u32) -> (prediction: Option<PrecisionPrediction>)
        requires
            self.wf(),
        ensures
            prediction == if i < self@.len() {
                Some(self@[i as int])
            } else {
                None
            },
    {
        match vec_get(&self.list, i) {
            Some((kind, upper, lower, predicted_price, amount)) => Some(
                PrecisionPrediction {
                    user: Address { kind, upper, lower },
                    predicted_price,
                    amount,
                },
            ),
            None => None,
        }
    }
}

} // verus!
