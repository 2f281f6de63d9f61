use risk::{Attack, Defend, Dice, Strategy};

fn attack_faces(a: &Attack) -> Vec<u8> {
    match a {
        Attack::WithOne(x) => vec![x.value()],
        Attack::WithTwo(x, y) => vec![x.value(), y.value()],
        Attack::WithThree(x, y, z) => vec![x.value(), y.value(), z.value()],
    }
}

fn defend_faces(d: &Defend) -> Vec<u8> {
    match d {
        Defend::WithOne(x) => vec![x.value()],
        Defend::WithTwo(x, y) => vec![x.value(), y.value()],
    }
}

#[test]
fn dice_all_are_one_to_six() {
    let values: Vec<u8> = Dice::all().iter().map(|d| d.value()).collect();
    assert_eq!(values, vec![1, 2, 3, 4, 5, 6]);
}

#[test]
fn attack_combination_counts() {
    let all = Attack::all();
    let ones = all.iter().filter(|a| a.strategy() == Strategy::WithOne).count();
    let twos = all.iter().filter(|a| a.strategy() == Strategy::WithTwo).count();
    let threes = all.iter().filter(|a| a.strategy() == Strategy::WithThree).count();
    assert_eq!(ones, 6);
    assert_eq!(twos, 21);
    assert_eq!(threes, 56);
    assert_eq!(all.len(), 83);
}

#[test]
fn defend_combination_counts() {
    let all = Defend::all();
    let ones = all.iter().filter(|d| d.strategy() == Strategy::WithOne).count();
    let twos = all.iter().filter(|d| d.strategy() == Strategy::WithTwo).count();
    assert_eq!(ones, 6);
    assert_eq!(twos, 21);
    assert_eq!(all.len(), 27);
}

#[test]
fn attack_combinations_are_sorted_and_distinct() {
    let all = Attack::all();
    let faces: Vec<Vec<u8>> = all.iter().map(attack_faces).collect();
    for f in faces.iter() {
        for w in f.windows(2) {
            assert!(w[0] >= w[1]);
        }
    }
    for i in 0..faces.len() {
        for j in (i + 1)..faces.len() {
            assert_ne!(faces[i], faces[j]);
        }
    }
}

#[test]
fn defend_combinations_are_sorted_and_distinct() {
    let all = Defend::all();
    let faces: Vec<Vec<u8>> = all.iter().map(defend_faces).collect();
    for f in faces.iter() {
        for w in f.windows(2) {
            assert!(w[0] >= w[1]);
        }
    }
    for i in 0..faces.len() {
        for j in (i + 1)..faces.len() {
            assert_ne!(faces[i], faces[j]);
        }
    }
}

#[test]
fn every_sorted_triple_is_generated() {
    let all = Attack::all();
    let dice = Dice::all();
    for x in dice.iter() {
        for y in dice.iter() {
            for z in dice.iter() {
                if x.value() >= y.value() && y.value() >= z.value() {
                    assert!(all.contains(&Attack::WithThree(*x, *y, *z)));
                } else {
                    assert!(!all.contains(&Attack::WithThree(*x, *y, *z)));
                }
            }
        }
    }
}

#[test]
fn strategies_follow_dice_counts() {
    assert_eq!(Attack::WithOne(Dice::Two).strategy(), Strategy::WithOne);
    assert_eq!(Attack::WithTwo(Dice::Two, Dice::One).strategy(), Strategy::WithTwo);
    assert_eq!(Attack::WithThree(Dice::Six, Dice::Two, Dice::One).strategy(), Strategy::WithThree);
    assert_eq!(Defend::WithOne(Dice::Three).strategy(), Strategy::WithOne);
    assert_eq!(Defend::WithTwo(Dice::Three, Dice::Three).strategy(), Strategy::WithTwo);
}

#[test]
fn attack_generator_is_restartable() {
    let first = Attack::all();
    let second = Attack::all();
    assert_eq!(first, second);
    assert_eq!(first[0], Attack::WithOne(Dice::One));
    assert_eq!(first[1], Attack::WithTwo(Dice::One, Dice::One));
    assert_eq!(first[2], Attack::WithThree(Dice::One, Dice::One, Dice::One));
    assert_eq!(first[82], Attack::WithThree(Dice::Six, Dice::Six, Dice::Six));
}

#[test]
fn defend_generator_is_restartable() {
    let first = Defend::all();
    let second = Defend::all();
    assert_eq!(first, second);
    assert_eq!(first[0], Defend::WithOne(Dice::One));
    assert_eq!(first[1], Defend::WithTwo(Dice::One, Dice::One));
    assert_eq!(first[2], Defend::WithOne(Dice::Two));
    assert_eq!(first[26], Defend::WithTwo(Dice::Six, Dice::Six));
}
