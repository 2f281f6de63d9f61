use risk::{
    resolve_all, tally, tally_all, Aggregator, Attack, Defend, Dice, Losses, LossesSummary,
    Strategy, StrategySummary,
};

const ATTACK: [Strategy; 3] = [Strategy::WithOne, Strategy::WithTwo, Strategy::WithThree];
const DEFEND: [Strategy; 3] = [Strategy::WithOne, Strategy::WithTwo, Strategy::WithThree];

fn combinations(s: Strategy) -> u32 {
    match s {
        Strategy::WithOne => 6,
        Strategy::WithTwo => 21,
        Strategy::WithThree => 56,
    }
}

#[test]
fn strategy_summary_from_combinations() {
    let k = StrategySummary::new(
        Attack::WithThree(Dice::One, Dice::One, Dice::One),
        Defend::WithOne(Dice::Six),
    );
    assert_eq!(k, StrategySummary { attack: Strategy::WithThree, defend: Strategy::WithOne });
}

#[test]
fn losses_summary_new_and_add() {
    let s = LossesSummary::new(Losses { attacker: 1, defender: 0 });
    assert_eq!(s.occurrences, 1);
    assert_eq!(s.losses, Losses { attacker: 1, defender: 0 });
    let t = s.add(Losses { attacker: 1, defender: 1 });
    assert_eq!(t.occurrences, 2);
    assert_eq!(t.losses, Losses { attacker: 2, defender: 1 });
}

#[test]
fn record_starts_then_accumulates() {
    let key = StrategySummary { attack: Strategy::WithTwo, defend: Strategy::WithOne };
    let other = StrategySummary { attack: Strategy::WithOne, defend: Strategy::WithTwo };
    let mut agg = Aggregator::new();
    assert_eq!(agg.get(key), None);
    agg.record(key, Losses { attacker: 0, defender: 1 });
    assert_eq!(
        agg.get(key),
        Some(LossesSummary { losses: Losses { attacker: 0, defender: 1 }, occurrences: 1 })
    );
    agg.record(key, Losses { attacker: 1, defender: 0 });
    assert_eq!(
        agg.get(key),
        Some(LossesSummary { losses: Losses { attacker: 1, defender: 1 }, occurrences: 2 })
    );
    assert_eq!(agg.get(other), None);
}

#[test]
fn occurrences_are_products_of_combination_counts() {
    let agg = tally_all();
    for a in ATTACK.iter() {
        for d in DEFEND.iter() {
            let key = StrategySummary { attack: *a, defend: *d };
            if *d == Strategy::WithThree {
                assert_eq!(agg.get(key), None);
            } else {
                let s = agg.get(key).unwrap();
                assert_eq!(s.occurrences, combinations(*a) * combinations(*d));
            }
        }
    }
}

#[test]
fn occurrences_match_counted_pairs() {
    let attacks = Attack::all();
    let defends = Defend::all();
    let agg = tally(&attacks, &defends);
    for a in ATTACK.iter() {
        for d in DEFEND.iter() {
            let mut pairs = 0u32;
            for x in attacks.iter() {
                for y in defends.iter() {
                    if x.strategy() == *a && y.strategy() == *d {
                        pairs += 1;
                    }
                }
            }
            let key = StrategySummary { attack: *a, defend: *d };
            match agg.get(key) {
                Some(s) => assert_eq!(s.occurrences, pairs),
                None => assert_eq!(pairs, 0),
            }
        }
    }
}

#[test]
fn one_against_one_totals() {
    let agg = tally_all();
    let key = StrategySummary { attack: Strategy::WithOne, defend: Strategy::WithOne };
    let s = agg.get(key).unwrap();
    assert_eq!(s.occurrences, 36);
    assert_eq!(s.losses, Losses { attacker: 21, defender: 15 });
}

#[test]
fn two_tallies_agree() {
    let first = tally_all();
    let second = tally_all();
    for a in ATTACK.iter() {
        for d in DEFEND.iter() {
            let key = StrategySummary { attack: *a, defend: *d };
            assert_eq!(first.get(key), second.get(key));
        }
    }
}

#[test]
fn tally_of_nothing_is_empty() {
    let agg = tally(&Vec::new(), &Defend::all());
    for a in ATTACK.iter() {
        for d in DEFEND.iter() {
            assert_eq!(agg.get(StrategySummary { attack: *a, defend: *d }), None);
        }
    }
}

#[test]
fn resolve_all_is_row_major() {
    let attacks = Attack::all();
    let defends = Defend::all();
    let all = resolve_all(&attacks, &defends);
    assert_eq!(all.len(), 83 * 27);
    for (i, a) in attacks.iter().enumerate() {
        for (j, d) in defends.iter().enumerate() {
            let m = all[i * defends.len() + j];
            assert_eq!(m.attack, *a);
            assert_eq!(m.defend, *d);
            assert_eq!(m.losses, risk::decide(*a, *d));
        }
    }
}

#[test]
fn tally_all_matches_tally_of_generators() {
    let whole = tally_all();
    let direct = tally(&Attack::all(), &Defend::all());
    for a in ATTACK.iter() {
        for d in DEFEND.iter() {
            let key = StrategySummary { attack: *a, defend: *d };
            assert_eq!(whole.get(key), direct.get(key));
        }
    }
    let key = StrategySummary { attack: Strategy::WithThree, defend: Strategy::WithTwo };
    let s = whole.get(key).unwrap();
    assert_eq!(s.occurrences, 1176);
    assert_eq!(s.losses.attacker + s.losses.defender, 2 * 1176);
}
