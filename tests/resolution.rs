use risk::{decide, Attack, Defend, Dice, Losses, Strategy};

fn dice_count(s: Strategy) -> u32 {
    match s {
        Strategy::WithOne => 1,
        Strategy::WithTwo => 2,
        Strategy::WithThree => 3,
    }
}

#[test]
fn tie_goes_to_defender() {
    let r = decide(Attack::WithOne(Dice::Four), Defend::WithOne(Dice::Four));
    assert_eq!(r, Losses { attacker: 1, defender: 0 });
}

#[test]
fn split_result_with_two_dice_each() {
    let r = decide(
        Attack::WithTwo(Dice::Six, Dice::Five),
        Defend::WithTwo(Dice::Six, Dice::One),
    );
    assert_eq!(r, Losses { attacker: 1, defender: 1 });
}

#[test]
fn attacker_sweeps_single_die() {
    let r = decide(Attack::WithOne(Dice::Six), Defend::WithOne(Dice::One));
    assert_eq!(r, Losses { attacker: 0, defender: 1 });
}

#[test]
fn three_dice_compare_only_top_two() {
    let r = decide(
        Attack::WithThree(Dice::Six, Dice::Six, Dice::Six),
        Defend::WithTwo(Dice::Five, Dice::Five),
    );
    assert_eq!(r, Losses { attacker: 0, defender: 2 });
    let r = decide(
        Attack::WithThree(Dice::Three, Dice::Two, Dice::Two),
        Defend::WithTwo(Dice::Three, Dice::Two),
    );
    assert_eq!(r, Losses { attacker: 2, defender: 0 });
}

#[test]
fn one_attack_die_against_two_defend_dice() {
    let r = decide(Attack::WithOne(Dice::Five), Defend::WithTwo(Dice::Four, Dice::Four));
    assert_eq!(r, Losses { attacker: 0, defender: 1 });
}

#[test]
fn two_attack_dice_against_one_defend_die() {
    let r = decide(Attack::WithTwo(Dice::Two, Dice::Two), Defend::WithOne(Dice::Two));
    assert_eq!(r, Losses { attacker: 1, defender: 0 });
}

#[test]
fn losses_sum_to_compared_ranks() {
    for a in Attack::all().iter() {
        for d in Defend::all().iter() {
            let r = decide(*a, *d);
            let n = dice_count(a.strategy()).min(dice_count(d.strategy()));
            assert_eq!(r.attacker + r.defender, n);
            assert!(n <= 2);
        }
    }
}

#[test]
fn losses_add_componentwise() {
    let a = Losses { attacker: 3, defender: 4 };
    let b = Losses { attacker: 10, defender: 20 };
    assert_eq!(a.add(b), Losses { attacker: 13, defender: 24 });
}
