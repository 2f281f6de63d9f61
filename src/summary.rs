//! Casualty totals bucketed by strategy pair.
use std::collections::HashMap;
use vstd::prelude::*;
use crate::combination::{Attack, Defend, Strategy};
use crate::resolution::Losses;

verus! {

/// The strategies of the two sides in one matchup.
#[derive(Copy, Clone, Debug, PartialEq, Eq, Structural, Hash)]
pub struct StrategySummary {
    pub attack: Strategy,
    pub defend: Strategy,
}

impl StrategySummary {
    pub fn new(attack: Attack, defend: Defend) -> (r: StrategySummary)
        ensures
            r.attack == attack.kind(),
            r.defend == defend.kind(),
    {
        StrategySummary { attack: attack.strategy(), defend: defend.strategy() }
    }

    /// Where this pair is kept in an aggregator's table.
    pub open spec fn slot(self) -> int {
        (self.attack.dice() - 1) * 3 + (self.defend.dice() - 1)
    }

    fn slot_index(&self) -> (r: usize)
        ensures
            r == self.slot(),
            r < 9,
    {
        let a: usize = match self.attack {
            Strategy::WithOne => 0,
            Strategy::WithTwo => 1,
            Strategy::WithThree => 2,
        };
        let d: usize = match self.defend {
            Strategy::WithOne => 0,
            Strategy::WithTwo => 1,
            Strategy::WithThree => 2,
        };
        a * 3 + d
    }

    /// Distinct pairs are kept in distinct slots.
    pub proof fn lemma_slot_injective(p: StrategySummary, q: StrategySummary)
        requires
            p.slot() == q.slot(),
        ensures
            p == q,
    {
    }
}

/// Total losses over some matchups, and how many there were.
#[derive(Copy, Clone, Debug, PartialEq, Eq, Structural)]
pub struct LossesSummary {
    pub losses: Losses,
    pub occurrences: u32,
}

impl LossesSummary {
    /// The summary of a single matchup.
    pub fn new(losses: Losses) -> (r: LossesSummary)
        ensures
            r == (LossesSummary { losses, occurrences: 1 }),
    {
        LossesSummary { losses, occurrences: 1 }
    }

    /// One more matchup can be added without overflow.
    pub open spec fn has_room_for(self, other: Losses) -> bool {
        &&& self.occurrences + 1 <= u32::MAX
        &&& self.losses.attacker + other.attacker <= u32::MAX
        &&& self.losses.defender + other.defender <= u32::MAX
    }

    /// This summary with one more matchup added.
    pub open spec fn plus(self, other: Losses) -> LossesSummary {
        LossesSummary {
            losses: Losses {
                attacker: (self.losses.attacker + other.attacker) as u32,
                defender: (self.losses.defender + other.defender) as u32,
            },
            occurrences: (self.occurrences + 1) as u32,
        }
    }

    pub fn add(self, other: Losses) -> (r: LossesSummary)
        requires
            self.has_room_for(other),
        ensures
            r == self.plus(other),
    {
        LossesSummary { losses: self.losses.add(other), occurrences: self.occurrences + 1 }
    }
}

/// A summary for each strategy pair recorded so far, keyed by the pair's slot.
pub struct Aggregator {
    summaries: HashMap<usize, LossesSummary>,
}

impl Aggregator {
    /// The summary of each pair that has been recorded.
    pub closed spec fn view(&self) -> Map<StrategySummary, LossesSummary> {
        Map::new(
            |k: StrategySummary| self.summaries@.contains_key(k.slot() as usize),
            |k: StrategySummary| self.summaries@[k.slot() as usize],
        )
    }

    /// Every pair that is present has been recorded at least once.
    pub closed spec fn wf(&self) -> bool {
        forall|i: usize| #[trigger]
            self.summaries@.contains_key(i) ==> self.summaries@[i].occurrences >= 1
    }

    pub fn new() -> (r: Aggregator)
        ensures
            r.wf(),
            r@ == Map::<StrategySummary, LossesSummary>::empty(),
    {
        let r = Aggregator { summaries: HashMap::new() };
        assert(r@ =~= Map::<StrategySummary, LossesSummary>::empty());
        r
    }

    /// Adds one matchup's losses under its strategy pair: a pair seen for the
    /// first time starts a summary of one occurrence, a known pair has the
    /// losses added and its occurrences raised by one.
    pub fn record(&mut self, key: StrategySummary, losses: Losses)
        requires
            old(self).wf(),
            old(self)@.contains_key(key) ==> old(self)@[key].has_room_for(losses),
        ensures
            final(self).wf(),
            final(self)@ == old(self)@.insert(
                key,
                if old(self)@.contains_key(key) {
                    old(self)@[key].plus(losses)
                } else {
                    LossesSummary { losses, occurrences: 1 }
                },
            ),
    {
        let i = key.slot_index();
        let next = match self.summaries.get(&i) {
            Some(summary) => summary.add(losses),
            None => LossesSummary::new(losses),
        };
        self.summaries.insert(i, next);
        proof {
            assert forall|k: StrategySummary| k.slot() == key.slot() implies k == key by {
                StrategySummary::lemma_slot_injective(k, key);
            }
            assert(self@ =~= old(self)@.insert(
                key,
                if old(self)@.contains_key(key) {
                    old(self)@[key].plus(losses)
                } else {
                    LossesSummary { losses, occurrences: 1 }
                },
            ));
        }
    }

    /// The summary of a strategy pair, or `None` where it was never recorded.
    pub fn get(&self, key: StrategySummary) -> (r: Option<LossesSummary>)
        requires
            self.wf(),
        ensures
            r == if self@.contains_key(key) {
                Some(self@[key])
            } else {
                None
            },
    {
        match self.summaries.get(&key.slot_index()) {
            Some(summary) => Some(*summary),
            None => None,
        }
    }
}

} // verus!
