//! Resolving every attack combination against every defend combination and
//! summing the losses by strategy pair.
use vstd::prelude::*;
use crate::combination::{
    attack_enumeration, count_attacks, count_defends, defend_enumeration, Attack, Defend, Strategy,
};
use crate::resolution::{attacker_losses, decide, defender_losses, Losses};
use crate::summary::{Aggregator, LossesSummary, StrategySummary};

verus! {

/// The matchup of `a` and `d` falls under the strategy pair `key`.
pub open spec fn under(a: Attack, d: Defend, key: StrategySummary) -> bool {
    a.kind() == key.attack && d.kind() == key.defend
}

/// How many matchups of `a` against `ds` fall under `key`.
pub open spec fn row_matchups(a: Attack, ds: Seq<Defend>, key: StrategySummary) -> nat
    decreases ds.len(),
{
    if ds.len() == 0 {
        0
    } else {
        row_matchups(a, ds.drop_last(), key) + if under(a, ds.last(), key) {
            1nat
        } else {
            0nat
        }
    }
}

/// The attacker's losses over the matchups of `a` against `ds` under `key`.
pub open spec fn row_attacker_losses(a: Attack, ds: Seq<Defend>, key: StrategySummary) -> nat
    decreases ds.len(),
{
    if ds.len() == 0 {
        0
    } else {
        row_attacker_losses(a, ds.drop_last(), key) + if under(a, ds.last(), key) {
            attacker_losses(a, ds.last())
        } else {
            0nat
        }
    }
}

/// The defender's losses over the matchups of `a` against `ds` under `key`.
pub open spec fn row_defender_losses(a: Attack, ds: Seq<Defend>, key: StrategySummary) -> nat
    decreases ds.len(),
{
    if ds.len() == 0 {
        0
    } else {
        row_defender_losses(a, ds.drop_last(), key) + if under(a, ds.last(), key) {
            defender_losses(a, ds.last())
        } else {
            0nat
        }
    }
}

/// How many matchups of `attacks` against `defends` fall under `key`.
pub open spec fn matchups(attacks: Seq<Attack>, defends: Seq<Defend>, key: StrategySummary) -> nat
    decreases attacks.len(),
{
    if attacks.len() == 0 {
        0
    } else {
        matchups(attacks.drop_last(), defends, key) + row_matchups(attacks.last(), defends, key)
    }
}

/// The attacker's losses over the matchups of `attacks` against `defends`
/// under `key`.
pub open spec fn total_attacker_losses(
    attacks: Seq<Attack>,
    defends: Seq<Defend>,
    key: StrategySummary,
) -> nat
    decreases attacks.len(),
{
    if attacks.len() == 0 {
        0
    } else {
        total_attacker_losses(attacks.drop_last(), defends, key) + row_attacker_losses(
            attacks.last(),
            defends,
            key,
        )
    }
}

/// The defender's losses over the matchups of `attacks` against `defends`
/// under `key`.
pub open spec fn total_defender_losses(
    attacks: Seq<Attack>,
    defends: Seq<Defend>,
    key: StrategySummary,
) -> nat
    decreases attacks.len(),
{
    if attacks.len() == 0 {
        0
    } else {
        total_defender_losses(attacks.drop_last(), defends, key) + row_defender_losses(
            attacks.last(),
            defends,
            key,
        )
    }
}

/// `m` holds, for each strategy pair with at least one matchup of `attacks`
/// against `defends`, the number of those matchups and each side's losses
/// summed over them, and nothing else.
pub open spec fn tallies(
    m: Map<StrategySummary, LossesSummary>,
    attacks: Seq<Attack>,
    defends: Seq<Defend>,
) -> bool {
    forall|key: StrategySummary|
        {
            &&& #[trigger] m.contains_key(key) <==> matchups(attacks, defends, key) > 0
            &&& m.contains_key(key) ==> {
                &&& m[key].occurrences == matchups(attacks, defends, key)
                &&& m[key].losses.attacker == total_attacker_losses(attacks, defends, key)
                &&& m[key].losses.defender == total_defender_losses(attacks, defends, key)
            }
        }
}

/// The occurrences recorded for `key`, 0 where it is absent.
spec fn occurrences_in(m: Map<StrategySummary, LossesSummary>, key: StrategySummary) -> nat {
    if m.contains_key(key) {
        m[key].occurrences as nat
    } else {
        0
    }
}

spec fn attacker_in(m: Map<StrategySummary, LossesSummary>, key: StrategySummary) -> nat {
    if m.contains_key(key) {
        m[key].losses.attacker as nat
    } else {
        0
    }
}

spec fn defender_in(m: Map<StrategySummary, LossesSummary>, key: StrategySummary) -> nat {
    if m.contains_key(key) {
        m[key].losses.defender as nat
    } else {
        0
    }
}

proof fn lemma_take_attacks(s: Seq<Attack>, i: int)
    requires
        0 <= i < s.len(),
    ensures
        s.take(i + 1).drop_last() == s.take(i),
        s.take(i + 1).last() == s[i],
{
    assert(s.take(i + 1).drop_last() =~= s.take(i));
}

proof fn lemma_take_defends(s: Seq<Defend>, j: int)
    requires
        0 <= j < s.len(),
    ensures
        s.take(j + 1).drop_last() == s.take(j),
        s.take(j + 1).last() == s[j],
{
    assert(s.take(j + 1).drop_last() =~= s.take(j));
}

/// Resolves every attack combination against every defend combination and
/// records each matchup's losses under its strategy pair.
pub fn tally(attacks: &Vec<Attack>, defends: &Vec<Defend>) -> (r: Aggregator)
    requires
        attacks@.len() * defends@.len() * 2 <= u32::MAX,
    ensures
        r.wf(),
        tallies(r@, attacks@, defends@),
{
    let mut r = Aggregator::new();
    let n_attacks = attacks.len();
    let n_defends = defends.len();
    let mut i: usize = 0;
    while i < n_attacks
        invariant
            n_attacks == attacks@.len(),
            n_defends == defends@.len(),
            n_attacks * n_defends * 2 <= u32::MAX,
            i <= n_attacks,
            r.wf(),
            forall|key: StrategySummary|
                {
                    &&& #[trigger] occurrences_in(r@, key) == matchups(attacks@.take(i as int), defends@, key)
                    &&& attacker_in(r@, key) == total_attacker_losses(attacks@.take(i as int), defends@, key)
                    &&& defender_in(r@, key) == total_defender_losses(attacks@.take(i as int), defends@, key)
                    &&& r@.contains_key(key) <==> occurrences_in(r@, key) > 0
                    &&& occurrences_in(r@, key) <= i * n_defends
                    &&& attacker_in(r@, key) <= 2 * occurrences_in(r@, key)
                    &&& defender_in(r@, key) <= 2 * occurrences_in(r@, key)
                },
        decreases n_attacks - i,
    {
        let attack = attacks[i];
        let mut j: usize = 0;
        while j < n_defends
            invariant
                n_attacks == attacks@.len(),
                n_defends == defends@.len(),
                n_attacks * n_defends * 2 <= u32::MAX,
                i < n_attacks,
                j <= n_defends,
                attack == attacks@[i as int],
                r.wf(),
                forall|key: StrategySummary|
                    {
                        &&& #[trigger] occurrences_in(r@, key) == matchups(attacks@.take(i as int), defends@, key)
                            + row_matchups(attack, defends@.take(j as int), key)
                        &&& attacker_in(r@, key) == total_attacker_losses(attacks@.take(i as int), defends@, key)
                            + row_attacker_losses(attack, defends@.take(j as int), key)
                        &&& defender_in(r@, key) == total_defender_losses(attacks@.take(i as int), defends@, key)
                            + row_defender_losses(attack, defends@.take(j as int), key)
                        &&& r@.contains_key(key) <==> occurrences_in(r@, key) > 0
                        &&& occurrences_in(r@, key) <= i * n_defends + j
                        &&& attacker_in(r@, key) <= 2 * occurrences_in(r@, key)
                        &&& defender_in(r@, key) <= 2 * occurrences_in(r@, key)
                    },
            decreases n_defends - j,
        {
            let defend = defends[j];
            let outcome = decide(attack, defend);
            let key = StrategySummary::new(attack, defend);
            let ghost before = r@;
            proof {
                lemma_take_defends(defends@, j as int);
                assert(i * n_defends + j + 1 <= n_attacks * n_defends) by (nonlinear_arith)
                    requires
                        i < n_attacks,
                        j < n_defends,
                ;
                assert(occurrences_in(r@, key) <= i * n_defends + j);
            }
            r.record(key, outcome);
            proof {
                assert forall|k: StrategySummary|
                    {
                        &&& #[trigger] occurrences_in(r@, k) == matchups(attacks@.take(i as int), defends@, k)
                            + row_matchups(attack, defends@.take(j + 1), k)
                        &&& attacker_in(r@, k) == total_attacker_losses(attacks@.take(i as int), defends@, k)
                            + row_attacker_losses(attack, defends@.take(j + 1), k)
                        &&& defender_in(r@, k) == total_defender_losses(attacks@.take(i as int), defends@, k)
                            + row_defender_losses(attack, defends@.take(j + 1), k)
                        &&& r@.contains_key(k) <==> occurrences_in(r@, k) > 0
                        &&& occurrences_in(r@, k) <= i * n_defends + j + 1
                        &&& attacker_in(r@, k) <= 2 * occurrences_in(r@, k)
                        &&& defender_in(r@, k) <= 2 * occurrences_in(r@, k)
                    } by {
                    assert(occurrences_in(before, k) == matchups(attacks@.take(i as int), defends@, k)
                        + row_matchups(attack, defends@.take(j as int), k));
                    assert(under(attack, defend, k) <==> k == key);
                    if k == key {
                        assert(occurrences_in(r@, k) == occurrences_in(before, k) + 1);
                        assert(attacker_in(r@, k) == attacker_in(before, k) + outcome.attacker);
                        assert(defender_in(r@, k) == defender_in(before, k) + outcome.defender);
                    } else {
                        assert(occurrences_in(r@, k) == occurrences_in(before, k));
                        assert(attacker_in(r@, k) == attacker_in(before, k));
                        assert(defender_in(r@, k) == defender_in(before, k));
                    }
                }
            }
            j = j + 1;
        }
        proof {
            lemma_take_attacks(attacks@, i as int);
            assert(defends@.take(n_defends as int) == defends@);
            assert((i + 1) * n_defends == i * n_defends + n_defends) by (nonlinear_arith);
        }
        i = i + 1;
    }
    proof {
        assert(attacks@.take(n_attacks as int) == attacks@);
        assert forall|key: StrategySummary|
            {
                &&& #[trigger] r@.contains_key(key) <==> matchups(attacks@, defends@, key) > 0
                &&& r@.contains_key(key) ==> {
                    &&& r@[key].occurrences == matchups(attacks@, defends@, key)
                    &&& r@[key].losses.attacker == total_attacker_losses(attacks@, defends@, key)
                    &&& r@[key].losses.defender == total_defender_losses(attacks@, defends@, key)
                }
            } by {
            assert(occurrences_in(r@, key) == matchups(attacks@, defends@, key));
        }
    }
    r
}

/// The matchups of `a` against `ds` under `key`: all of `ds` that commit
/// `key.defend` dice where `a` commits `key.attack` dice, none otherwise.
proof fn lemma_row_matchups(a: Attack, ds: Seq<Defend>, key: StrategySummary)
    ensures
        row_matchups(a, ds, key) == if a.kind() == key.attack {
            count_defends(ds, key.defend)
        } else {
            0
        },
    decreases ds.len(),
{
    if ds.len() > 0 {
        lemma_row_matchups(a, ds.drop_last(), key);
    }
}

/// The matchups under a strategy pair number the attack combinations of its
/// attack strategy times the defend combinations of its defend strategy.
pub proof fn lemma_matchups_product(attacks: Seq<Attack>, defends: Seq<Defend>, key: StrategySummary)
    ensures
        matchups(attacks, defends, key) == count_attacks(attacks, key.attack) * count_defends(
            defends,
            key.defend,
        ),
    decreases attacks.len(),
{
    if attacks.len() > 0 {
        lemma_matchups_product(attacks.drop_last(), defends, key);
        lemma_row_matchups(attacks.last(), defends, key);
        let c = count_attacks(attacks.drop_last(), key.attack);
        let d = count_defends(defends, key.defend);
        assert((c + 1) * d == c * d + d) by (nonlinear_arith);
        assert(matchups(attacks, defends, key) == c * d + row_matchups(attacks.last(), defends, key));
        if attacks.last().kind() == key.attack {
            assert(count_attacks(attacks, key.attack) == c + 1);
            assert(matchups(attacks, defends, key) == (c + 1) * d);
        } else {
            assert(count_attacks(attacks, key.attack) == c);
            assert(matchups(attacks, defends, key) == c * d);
        }
    } else {
        assert(count_attacks(attacks, key.attack) == 0);
        assert(matchups(attacks, defends, key) == 0);
    }
}

/// In a tally, the occurrences recorded for a strategy pair are the number of
/// matchups whose dice counts are exactly that pair, which is the number of
/// attack combinations with that many dice times the number of defend
/// combinations with that many dice; a pair is recorded exactly when both
/// numbers are positive.
pub proof fn lemma_occurrences_are_products(
    m: Map<StrategySummary, LossesSummary>,
    attacks: Seq<Attack>,
    defends: Seq<Defend>,
    key: StrategySummary,
)
    requires
        tallies(m, attacks, defends),
    ensures
        m.contains_key(key) <==> count_attacks(attacks, key.attack) > 0 && count_defends(
            defends,
            key.defend,
        ) > 0,
        m.contains_key(key) ==> m[key].occurrences == matchups(attacks, defends, key),
        m.contains_key(key) ==> m[key].occurrences == count_attacks(attacks, key.attack)
            * count_defends(defends, key.defend),
{
    lemma_matchups_product(attacks, defends, key);
    let c = count_attacks(attacks, key.attack);
    let d = count_defends(defends, key.defend);
    assert(c * d > 0 <==> c > 0 && d > 0) by (nonlinear_arith);
    assert(m.contains_key(key) <==> matchups(attacks, defends, key) > 0);
}

/// Two tallies of the same combinations agree on every strategy pair: the
/// same pairs, the same occurrences and the same losses, hence the same
/// averages.
pub proof fn lemma_tally_deterministic(
    m1: Map<StrategySummary, LossesSummary>,
    m2: Map<StrategySummary, LossesSummary>,
    attacks: Seq<Attack>,
    defends: Seq<Defend>,
)
    requires
        tallies(m1, attacks, defends),
        tallies(m2, attacks, defends),
    ensures
        m1 == m2,
{
    assert forall|key: StrategySummary| #[trigger] m1.contains_key(key) implies m2.contains_key(key)
        && m1[key] == m2[key] by {
        assert(m2.contains_key(key));
    }
    assert forall|key: StrategySummary| #[trigger] m2.contains_key(key) implies m1.contains_key(key) by {
        assert(m1.contains_key(key));
    }
    assert(m1 =~= m2);
}

/// The number of attack combinations with the dice count of `st`: the
/// multisets of that many faces out of six.
pub open spec fn attack_combinations(st: Strategy) -> nat {
    match st {
        Strategy::WithOne => 6,
        Strategy::WithTwo => 21,
        Strategy::WithThree => 56,
    }
}

/// The number of defend combinations with the dice count of `st`; a defender
/// never holds three dice.
pub open spec fn defend_combinations(st: Strategy) -> nat {
    match st {
        Strategy::WithOne => 6,
        Strategy::WithTwo => 21,
        Strategy::WithThree => 0,
    }
}

/// Tallies every attack combination against every defend combination.
pub fn tally_all() -> (r: Aggregator)
    ensures
        r.wf(),
        tallies(r@, attack_enumeration(), defend_enumeration()),
        forall|key: StrategySummary| #[trigger]
            r@.contains_key(key) <==> key.defend != Strategy::WithThree,
        forall|key: StrategySummary| #[trigger]
            r@.contains_key(key) ==> r@[key].occurrences == attack_combinations(key.attack)
                * defend_combinations(key.defend),
{
    let attacks = Attack::all();
    let defends = Defend::all();
    let r = tally(&attacks, &defends);
    proof {
        assert forall|key: StrategySummary|
            {
                &&& #[trigger] r@.contains_key(key) <==> key.defend != Strategy::WithThree
                &&& r@.contains_key(key) ==> r@[key].occurrences == attack_combinations(key.attack)
                    * defend_combinations(key.defend)
            } by {
            lemma_occurrences_are_products(r@, attacks@, defends@, key);
        }
    }
    r
}

/// One resolved matchup.
#[derive(Copy, Clone, Debug, PartialEq, Eq, Structural)]
pub struct Matchup {
    pub attack: Attack,
    pub defend: Defend,
    pub losses: Losses,
}

/// Earlier rows and columns of a row-major table come before later ones.
proof fn lemma_row_major(i: int, j: int, rows: int, cols: int)
    requires
        0 <= i < rows,
        0 <= j < cols,
    ensures
        0 <= i * cols + j < rows * cols,
        i * cols + j < (i + 1) * cols,
        i * cols <= i * cols + j,
{
    assert(i * cols + j < (i + 1) * cols) by (nonlinear_arith)
        requires
            j < cols,
    ;
    assert((i + 1) * cols <= rows * cols) by (nonlinear_arith)
        requires
            i + 1 <= rows,
            0 <= cols,
    ;
    assert(0 <= i * cols) by (nonlinear_arith)
        requires
            0 <= i,
            0 <= cols,
    ;
}

/// Resolves every attack combination against every defend combination, row
/// by row: the matchup of `attacks[i]` and `defends[j]` stands at
/// `i * defends.len() + j`.
pub fn resolve_all(attacks: &Vec<Attack>, defends: &Vec<Defend>) -> (r: Vec<Matchup>)
    requires
        attacks@.len() * defends@.len() <= usize::MAX,
    ensures
        r@.len() == attacks@.len() * defends@.len(),
        forall|i: int, j: int|
            0 <= i < attacks@.len() && 0 <= j < defends@.len() ==> {
                let m = #[trigger] r@[i * defends@.len() + j];
                &&& m.attack == attacks@[i]
                &&& m.defend == defends@[j]
                &&& m.losses.attacker == attacker_losses(attacks@[i], defends@[j])
                &&& m.losses.defender == defender_losses(attacks@[i], defends@[j])
            },
{
    let n_attacks = attacks.len();
    let n_defends = defends.len();
    let mut r: Vec<Matchup> = Vec::new();
    let mut i: usize = 0;
    while i < n_attacks
        invariant
            n_attacks == attacks@.len(),
            n_defends == defends@.len(),
            n_attacks * n_defends <= usize::MAX,
            i <= n_attacks,
            r@.len() == i * n_defends,
            forall|a: int, b: int|
                0 <= a < i && 0 <= b < n_defends ==> {
                    let m = #[trigger] r@[a * n_defends + b];
                    &&& m.attack == attacks@[a]
                    &&& m.defend == defends@[b]
                    &&& m.losses.attacker == attacker_losses(attacks@[a], defends@[b])
                    &&& m.losses.defender == defender_losses(attacks@[a], defends@[b])
                },
        decreases n_attacks - i,
    {
        let mut j: usize = 0;
        while j < n_defends
            invariant
                n_attacks == attacks@.len(),
                n_defends == defends@.len(),
                n_attacks * n_defends <= usize::MAX,
                i < n_attacks,
                j <= n_defends,
                r@.len() == i * n_defends + j,
                forall|a: int, b: int|
                    0 <= a < i && 0 <= b < n_defends || a == i && 0 <= b < j ==> {
                        let m = #[trigger] r@[a * n_defends + b];
                        &&& m.attack == attacks@[a]
                        &&& m.defend == defends@[b]
                        &&& m.losses.attacker == attacker_losses(attacks@[a], defends@[b])
                        &&& m.losses.defender == defender_losses(attacks@[a], defends@[b])
                    },
            decreases n_defends - j,
        {
            proof {
                lemma_row_major(i as int, j as int, n_attacks as int, n_defends as int);
                assert forall|a: int, b: int| 0 <= a < i && 0 <= b < n_defends implies #[trigger] (a
                    * n_defends + b) < i * n_defends by {
                    lemma_row_major(a, b, i as int, n_defends as int);
                }
            }
            let losses = decide(attacks[i], defends[j]);
            r.push(Matchup { attack: attacks[i], defend: defends[j], losses });
            j = j + 1;
        }
        proof {
            assert((i + 1) * n_defends == i * n_defends + n_defends) by (nonlinear_arith);
        }
        i = i + 1;
    }
    r
}

} // verus!
