use crate::chance::draw_below;
use crate::environment::Action;
use crate::schedule::Ratio;
use vstd::prelude::*;

verus! {

/// What an epsilon-greedy policy does with one decision.
#[derive(Clone, Copy, Debug, PartialEq, Eq, Structural)]
pub enum Decision {
    /// Take this action, which was picked at random.
    Explore(Action),
    /// Take the action of the highest value.
    Exploit,
}

/// The decision that belongs to two drawn numbers: with `coin` below the
/// numerator of `epsilon` the policy explores and takes the action at
/// position `slot`; otherwise, and where there is no such action, it
/// exploits.
pub open spec fn spec_decide_with(
    epsilon: Ratio,
    possible_actions: Seq<Action>,
    coin: u128,
    slot: u128,
) -> Decision {
    if coin < epsilon.numerator && slot < possible_actions.len() {
        Decision::Explore(possible_actions[slot as int])
    } else {
        Decision::Exploit
    }
}

/// The decision that belongs to the drawn numbers `coin` and `slot`.
pub fn decide_with(epsilon: Ratio, possible_actions: &Vec<Action>, coin: u128, slot: u128) -> (made:
    Decision)
    ensures
        made == spec_decide_with(epsilon, possible_actions@, coin, slot),
{
    if coin < epsilon.numerator && slot < possible_actions.len() as u128 {
        Decision::Explore(possible_actions[slot as usize])
    } else {
        Decision::Exploit
    }
}

/// Decides between exploring and exploiting. A coin is drawn evenly from
/// the whole numbers below the denominator of `epsilon`; where it falls
/// below the numerator, the policy explores, and a position in
/// `possible_actions` is drawn evenly. So an `epsilon` of zero never
/// explores, and an `epsilon` of one always does while there is an action to
/// take.
pub fn decide(epsilon: Ratio, possible_actions: &Vec<Action>) -> (made: Decision)
    ensures
        epsilon.numerator == 0 || epsilon.denominator == 0 || possible_actions.len() == 0
            ==> made == Decision::Exploit,
        epsilon.numerator >= epsilon.denominator > 0 && possible_actions.len() > 0
            ==> made is Explore,
        made is Explore ==> possible_actions@.contains(made->Explore_0),
{
    if epsilon.denominator == 0 || possible_actions.len() == 0 {
        return Decision::Exploit;
    }
    let coin = draw_below(epsilon.denominator);
    if coin < epsilon.numerator {
        let slot = draw_below(possible_actions.len() as u128);
        decide_with(epsilon, possible_actions, coin, slot)
    } else {
        Decision::Exploit
    }
}

} // verus!
