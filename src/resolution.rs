//! The rule that resolves one matchup of attack and defend dice.
use vstd::prelude::*;
use crate::combination::{Attack, Defend};
use crate::dice::Dice;

verus! {

/// Casualties of one side each.
#[derive(Copy, Clone, Debug, PartialEq, Eq, Structural)]
pub struct Losses {
    pub attacker: u32,
    pub defender: u32,
}

/// The number of ranks that are compared: as many as the smaller side holds.
pub open spec fn compared(a: Seq<int>, d: Seq<int>) -> nat {
    if a.len() <= d.len() {
        a.len()
    } else {
        d.len()
    }
}

/// Among the first `n` ranks, those where the defender's die is at least the
/// attacker's: the attacker loses one unit for each.
pub open spec fn ranks_held(a: Seq<int>, d: Seq<int>, n: nat) -> nat
    decreases n,
{
    if n == 0 {
        0
    } else {
        ranks_held(a, d, (n - 1) as nat) + if d[n - 1] >= a[n - 1] {
            1nat
        } else {
            0nat
        }
    }
}

/// Among the first `n` ranks, those where the attacker's die beats the
/// defender's: the defender loses one unit for each.
pub open spec fn ranks_taken(a: Seq<int>, d: Seq<int>, n: nat) -> nat
    decreases n,
{
    if n == 0 {
        0
    } else {
        ranks_taken(a, d, (n - 1) as nat) + if a[n - 1] > d[n - 1] {
            1nat
        } else {
            0nat
        }
    }
}

/// Units the attacker loses in the matchup.
pub open spec fn attacker_losses(attack: Attack, defend: Defend) -> nat {
    ranks_held(attack.faces(), defend.faces(), compared(attack.faces(), defend.faces()))
}

/// Units the defender loses in the matchup.
pub open spec fn defender_losses(attack: Attack, defend: Defend) -> nat {
    ranks_taken(attack.faces(), defend.faces(), compared(attack.faces(), defend.faces()))
}

/// Every compared rank costs exactly one side exactly one unit.
pub proof fn lemma_one_loss_per_rank(a: Seq<int>, d: Seq<int>, n: nat)
    ensures
        ranks_held(a, d, n) + ranks_taken(a, d, n) == n,
    decreases n,
{
    if n > 0 {
        lemma_one_loss_per_rank(a, d, (n - 1) as nat);
    }
}

/// The rank counts over the first one and the first two ranks, spelled out.
proof fn lemma_first_ranks(a: Seq<int>, d: Seq<int>)
    ensures
        ranks_held(a, d, 1) == if d[0] >= a[0] { 1nat } else { 0nat },
        ranks_taken(a, d, 1) == if a[0] > d[0] { 1nat } else { 0nat },
        ranks_held(a, d, 2) == ranks_held(a, d, 1) + if d[1] >= a[1] { 1nat } else { 0nat },
        ranks_taken(a, d, 2) == ranks_taken(a, d, 1) + if a[1] > d[1] { 1nat } else { 0nat },
{
    reveal_with_fuel(ranks_held, 2);
    reveal_with_fuel(ranks_taken, 2);
}

/// The loss of one rank: the attacker's die against the defender's, ties to
/// the defender.
fn duel(attack: Dice, defend: Dice) -> (r: Losses)
    ensures
        defend.face() >= attack.face() ==> r == (Losses { attacker: 1, defender: 0 }),
        defend.face() < attack.face() ==> r == (Losses { attacker: 0, defender: 1 }),
{
    if defend.value() >= attack.value() {
        Losses { attacker: 1, defender: 0 }
    } else {
        Losses { attacker: 0, defender: 1 }
    }
}

/// Resolves one matchup: the highest dice of the two sides are compared
/// pairwise, rank by rank, as far as the smaller side reaches.
pub fn decide(attack: Attack, defend: Defend) -> (r: Losses)
    ensures
        r.attacker == attacker_losses(attack, defend),
        r.defender == defender_losses(attack, defend),
        r.attacker + r.defender == compared(attack.faces(), defend.faces()),
        compared(attack.faces(), defend.faces()) <= 2,
{
    proof {
        lemma_first_ranks(attack.faces(), defend.faces());
        lemma_one_loss_per_rank(attack.faces(), defend.faces(), compared(attack.faces(), defend.faces()));
    }
    match defend {
        Defend::WithOne(defend_highest) => match attack {
            Attack::WithOne(attack_highest) => duel(attack_highest, defend_highest),
            Attack::WithTwo(attack_highest, _) => duel(attack_highest, defend_highest),
            Attack::WithThree(attack_highest, _, _) => duel(attack_highest, defend_highest),
        },
        Defend::WithTwo(defend_highest, defend_second) => match attack {
            Attack::WithOne(attack_highest) => duel(attack_highest, defend_highest),
            Attack::WithTwo(attack_highest, attack_second) => {
                let first = duel(attack_highest, defend_highest);
                let second = duel(attack_second, defend_second);
                first.add(second)
            },
            Attack::WithThree(attack_highest, attack_second, _) => {
                let first = duel(attack_highest, defend_highest);
                let second = duel(attack_second, defend_second);
                first.add(second)
            },
        },
    }
}

impl Losses {
    /// Both sides' losses added up.
    pub fn add(self, other: Losses) -> (r: Losses)
        requires
            self.attacker + other.attacker <= u32::MAX,
            self.defender + other.defender <= u32::MAX,
        ensures
            r.attacker == self.attacker + other.attacker,
            r.defender == self.defender + other.defender,
    {
        Losses {
            attacker: self.attacker + other.attacker,
            defender: self.defender + other.defender,
        }
    }
}

} // verus!
