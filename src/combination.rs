//! The dice combinations that each side can commit.
use vstd::prelude::*;
use crate::dice::Dice;

verus! {

broadcast use vstd::seq_lib::group_seq_properties;

/// How many dice one side commits.
#[derive(Copy, Clone, Debug, PartialEq, Eq, Structural, Hash)]
pub enum Strategy {
    WithThree,
    WithTwo,
    WithOne,
}

impl Strategy {
    /// The number of dice this strategy commits.
    pub open spec fn dice(self) -> nat {
        match self {
            Strategy::WithThree => 3,
            Strategy::WithTwo => 2,
            Strategy::WithOne => 1,
        }
    }
}

/// The dice an attacker commits, highest first.
#[derive(Copy, Clone, Debug, PartialEq, Eq, Structural)]
pub enum Attack {
    WithThree(Dice, Dice, Dice),
    WithTwo(Dice, Dice),
    WithOne(Dice),
}

/// The dice a defender commits, highest first.
#[derive(Copy, Clone, Debug, PartialEq, Eq, Structural)]
pub enum Defend {
    WithTwo(Dice, Dice),
    WithOne(Dice),
}

impl Attack {
    /// The pips of the committed dice, in the order they are held.
    pub open spec fn faces(self) -> Seq<int> {
        match self {
            Attack::WithOne(a) => seq![a.face()],
            Attack::WithTwo(a, b) => seq![a.face(), b.face()],
            Attack::WithThree(a, b, c) => seq![a.face(), b.face(), c.face()],
        }
    }

    /// The dice are held highest first.
    pub open spec fn is_sorted(self) -> bool {
        match self {
            Attack::WithOne(_) => true,
            Attack::WithTwo(a, b) => a.face() >= b.face(),
            Attack::WithThree(a, b, c) => a.face() >= b.face() && b.face() >= c.face(),
        }
    }
}

impl Defend {
    /// The pips of the committed dice, in the order they are held.
    pub open spec fn faces(self) -> Seq<int> {
        match self {
            Defend::WithOne(a) => seq![a.face()],
            Defend::WithTwo(a, b) => seq![a.face(), b.face()],
        }
    }

    /// The dice are held highest first.
    pub open spec fn is_sorted(self) -> bool {
        match self {
            Defend::WithOne(_) => true,
            Defend::WithTwo(a, b) => a.face() >= b.face(),
        }
    }
}


impl Attack {
    /// The strategy this combination belongs to: how many dice it holds.
    pub open spec fn kind(self) -> Strategy {
        match self {
            Attack::WithOne(_) => Strategy::WithOne,
            Attack::WithTwo(_, _) => Strategy::WithTwo,
            Attack::WithThree(_, _, _) => Strategy::WithThree,
        }
    }

    pub fn strategy(&self) -> (r: Strategy)
        ensures
            r == self.kind(),
            r.dice() == self.faces().len(),
    {
        match self {
            Attack::WithOne(_) => Strategy::WithOne,
            Attack::WithTwo(_, _) => Strategy::WithTwo,
            Attack::WithThree(_, _, _) => Strategy::WithThree,
        }
    }

    /// The pips read as a number of three digits, a missing die as 0; the
    /// generator emits combinations in increasing order of it.
    spec fn code(self) -> int {
        match self {
            Attack::WithOne(a) => 100 * a.face(),
            Attack::WithTwo(a, b) => 100 * a.face() + 10 * b.face(),
            Attack::WithThree(a, b, c) => 100 * a.face() + 10 * b.face() + c.face(),
        }
    }

    /// Every attack combination, each multiset of faces once, highest die
    /// first.
    pub fn all() -> (r: Vec<Attack>)
        ensures
            forall|i: int| 0 <= i < r@.len() ==> (#[trigger] r@[i]).is_sorted(),
            forall|a: Attack| a.is_sorted() ==> r@.contains(a),
            r@.no_duplicates(),
            count_attacks(r@, Strategy::WithOne) == 6,
            count_attacks(r@, Strategy::WithTwo) == 21,
            count_attacks(r@, Strategy::WithThree) == 56,
            r@.len() == 83,
            r@ == attack_enumeration(),
    {
        let dice = Dice::all();
        let mut r: Vec<Attack> = Vec::new();
        let mut hi: usize = 0;
        while hi < 6
            invariant
                hi <= 6,
                dice@.len() == 6,
                forall|i: int| 0 <= i < 6 ==> #[trigger] dice@[i].face() == i + 1,
                forall|i: int| 0 <= i < 6 ==> #[trigger] dice@[i] == Dice::with_face(i + 1),
                r@ == attack_sequence(hi as nat),
                forall|k: int| 0 <= k < r@.len() ==> (#[trigger] r@[k]).is_sorted(),
                forall|k: int| 0 <= k < r@.len() ==> (#[trigger] r@[k]).code() < 100 * (hi + 1),
                r@.no_duplicates(),
                count_attacks(r@, Strategy::WithOne) == hi,
                count_attacks(r@, Strategy::WithTwo) == triangle(hi as nat),
                count_attacks(r@, Strategy::WithThree) == tetrahedron(hi as nat),
                r@.len() == hi + triangle(hi as nat) + tetrahedron(hi as nat),
                forall|i: int| 0 <= i < hi ==> #[trigger] r@.contains(Attack::WithOne(dice@[i])),
                forall|i: int, j: int|
                    0 <= j <= i < hi ==> #[trigger] r@.contains(Attack::WithTwo(dice@[i], dice@[j])),
                forall|i: int, j: int, k: int|
                    0 <= k <= j <= i < hi ==> #[trigger] r@.contains(
                        Attack::WithThree(dice@[i], dice@[j], dice@[k]),
                    ),
            decreases 6 - hi,
        {
            let one = Attack::WithOne(dice[hi]);
            proof {
                lemma_count_attacks_push(r@, one);
                lemma_push_fresh_attack(r@, one);
            }
            r.push(one);
            proof {
                assert(r@ =~= attack_sequence(hi as nat) + seq![Attack::WithOne(dice@[hi as int])]
                    + attack_rows(hi + 1, 0));
            }
            let mut mid: usize = 0;
            while mid <= hi
                invariant
                    hi < 6,
                    mid <= hi + 1,
                    dice@.len() == 6,
                    forall|i: int| 0 <= i < 6 ==> #[trigger] dice@[i].face() == i + 1,
                    forall|i: int| 0 <= i < 6 ==> #[trigger] dice@[i] == Dice::with_face(i + 1),
                    r@ == attack_sequence(hi as nat) + seq![Attack::WithOne(dice@[hi as int])]
                        + attack_rows(hi + 1, mid as nat),
                    forall|k: int| 0 <= k < r@.len() ==> (#[trigger] r@[k]).is_sorted(),
                    forall|k: int|
                        0 <= k < r@.len() ==> (#[trigger] r@[k]).code() < 100 * (hi + 1) + 10 * (
                        mid + 1),
                    r@.no_duplicates(),
                    count_attacks(r@, Strategy::WithOne) == hi + 1,
                    count_attacks(r@, Strategy::WithTwo) == triangle(hi as nat) + mid,
                    count_attacks(r@, Strategy::WithThree) == tetrahedron(hi as nat) + triangle(
                        mid as nat,
                    ),
                    r@.len() == hi + 1 + triangle(hi as nat) + mid + tetrahedron(hi as nat)
                        + triangle(mid as nat),
                    forall|i: int| 0 <= i <= hi ==> #[trigger] r@.contains(Attack::WithOne(dice@[i])),
                    forall|i: int, j: int|
                        0 <= j <= i < 6 && (i < hi || (i == hi && j < mid)) ==> #[trigger] r@.contains(
                            Attack::WithTwo(dice@[i], dice@[j]),
                        ),
                    forall|i: int, j: int, k: int|
                        0 <= k <= j <= i < 6 && (i < hi || (i == hi && j < mid)) ==> #[trigger] r@.contains(
                            Attack::WithThree(dice@[i], dice@[j], dice@[k]),
                        ),
                decreases hi + 1 - mid,
            {
                let two = Attack::WithTwo(dice[hi], dice[mid]);
                proof {
                    lemma_count_attacks_push(r@, two);
                    lemma_push_fresh_attack(r@, two);
                }
                r.push(two);
                proof {
                    let triples = attack_triples(hi + 1, mid + 1, (mid + 1) as nat);
                    assert(r@ =~= attack_sequence(hi as nat) + seq![Attack::WithOne(dice@[hi as int])]
                        + attack_rows(hi + 1, mid as nat) + seq![
                        Attack::WithTwo(dice@[hi as int], dice@[mid as int]),
                    ] + triples.take(0));
                }
                let mut lo: usize = 0;
                while lo <= mid
                    invariant
                        hi < 6,
                        mid <= hi,
                        lo <= mid + 1,
                        dice@.len() == 6,
                        forall|i: int| 0 <= i < 6 ==> #[trigger] dice@[i].face() == i + 1,
                        forall|i: int| 0 <= i < 6 ==> #[trigger] dice@[i] == Dice::with_face(i + 1),
                        r@ == attack_sequence(hi as nat) + seq![Attack::WithOne(dice@[hi as int])]
                            + attack_rows(hi + 1, mid as nat) + seq![
                            Attack::WithTwo(dice@[hi as int], dice@[mid as int]),
                        ] + attack_triples(hi + 1, mid + 1, (mid + 1) as nat).take(lo as int),
                        forall|k: int| 0 <= k < r@.len() ==> (#[trigger] r@[k]).is_sorted(),
                        forall|k: int|
                            0 <= k < r@.len() ==> (#[trigger] r@[k]).code() < 100 * (hi + 1) + 10
                                * (mid + 1) + lo + 1,
                        r@.no_duplicates(),
                        count_attacks(r@, Strategy::WithOne) == hi + 1,
                        count_attacks(r@, Strategy::WithTwo) == triangle(hi as nat) + mid + 1,
                        count_attacks(r@, Strategy::WithThree) == tetrahedron(hi as nat)
                            + triangle(mid as nat) + lo,
                        r@.len() == hi + 1 + triangle(hi as nat) + mid + 1 + tetrahedron(
                            hi as nat,
                        ) + triangle(mid as nat) + lo,
                        forall|i: int|
                            0 <= i <= hi ==> #[trigger] r@.contains(Attack::WithOne(dice@[i])),
                        forall|i: int, j: int|
                            0 <= j <= i < 6 && (i < hi || (i == hi && j <= mid)) ==> #[trigger] r@.contains(
                                Attack::WithTwo(dice@[i], dice@[j]),
                            ),
                        forall|i: int, j: int, k: int|
                            0 <= k <= j <= i < 6 && (i < hi || (i == hi && (j < mid || (j == mid
                                && k < lo)))) ==> #[trigger] r@.contains(
                                Attack::WithThree(dice@[i], dice@[j], dice@[k]),
                            ),
                    decreases mid + 1 - lo,
                {
                    let three = Attack::WithThree(dice[hi], dice[mid], dice[lo]);
                    proof {
                        lemma_count_attacks_push(r@, three);
                        lemma_push_fresh_attack(r@, three);
                    }
                    r.push(three);
                    proof {
                        let triples = attack_triples(hi + 1, mid + 1, (mid + 1) as nat);
                        assert(triples.take(lo + 1) =~= triples.take(lo as int).push(three));
                        assert(r@ =~= attack_sequence(hi as nat) + seq![
                            Attack::WithOne(dice@[hi as int]),
                        ] + attack_rows(hi + 1, mid as nat) + seq![
                            Attack::WithTwo(dice@[hi as int], dice@[mid as int]),
                        ] + triples.take(lo + 1));
                    }
                    lo = lo + 1;
                }
                proof {
                    let triples = attack_triples(hi + 1, mid + 1, (mid + 1) as nat);
                    assert(triples.take(mid + 1) =~= triples);
                    assert(r@ =~= attack_sequence(hi as nat) + seq![Attack::WithOne(dice@[hi as int])]
                        + attack_rows(hi + 1, (mid + 1) as nat));
                }
                mid = mid + 1;
            }
            proof {
                assert(r@ =~= attack_sequence((hi + 1) as nat));
            }
            hi = hi + 1;
        }
        proof {
            reveal_with_fuel(triangle, 7);
            reveal_with_fuel(tetrahedron, 7);
            assert forall|a: Attack| a.is_sorted() implies r@.contains(a) by {
                match a {
                    Attack::WithOne(x) => {
                        Dice::lemma_face_injective(x, dice@[x.face() - 1]);
                    },
                    Attack::WithTwo(x, y) => {
                        Dice::lemma_face_injective(x, dice@[x.face() - 1]);
                        Dice::lemma_face_injective(y, dice@[y.face() - 1]);
                    },
                    Attack::WithThree(x, y, z) => {
                        Dice::lemma_face_injective(x, dice@[x.face() - 1]);
                        Dice::lemma_face_injective(y, dice@[y.face() - 1]);
                        Dice::lemma_face_injective(z, dice@[z.face() - 1]);
                    },
                }
            }
        }
        r
    }
}

/// The three-dice attack combinations headed by dice of `h` and `m` pips,
/// the lowest die rising from 1 to `n`.
pub open spec fn attack_triples(h: int, m: int, n: nat) -> Seq<Attack> {
    Seq::new(
        n,
        |k: int| Attack::WithThree(Dice::with_face(h), Dice::with_face(m), Dice::with_face(k + 1)),
    )
}

/// The attack combinations of two and three dice headed by a die of `h` pips
/// whose second die shows at most `n` pips: for each second die in rising
/// order, the pair and then its triples.
pub open spec fn attack_rows(h: int, n: nat) -> Seq<Attack>
    decreases n,
{
    if n == 0 {
        seq![]
    } else {
        attack_rows(h, (n - 1) as nat) + seq![
            Attack::WithTwo(Dice::with_face(h), Dice::with_face(n as int)),
        ] + attack_triples(h, n as int, n)
    }
}

/// The attack combinations whose highest die shows at most `n` pips: for
/// each highest die in rising order, the single die and then its rows.
pub open spec fn attack_sequence(n: nat) -> Seq<Attack>
    decreases n,
{
    if n == 0 {
        seq![]
    } else {
        attack_sequence((n - 1) as nat) + seq![Attack::WithOne(Dice::with_face(n as int))]
            + attack_rows(n as int, n)
    }
}

/// Every attack combination, in the order the generator emits them.
pub open spec fn attack_enumeration() -> Seq<Attack> {
    attack_sequence(6)
}

/// How many combinations in `s` commit as many dice as `st`.
pub open spec fn count_attacks(s: Seq<Attack>, st: Strategy) -> nat
    decreases s.len(),
{
    if s.len() == 0 {
        0
    } else {
        count_attacks(s.drop_last(), st) + if s.last().kind() == st {
            1nat
        } else {
            0nat
        }
    }
}

proof fn lemma_count_attacks_push(s: Seq<Attack>, a: Attack)
    ensures
        forall|st: Strategy|
            #[trigger] count_attacks(s.push(a), st) == count_attacks(s, st) + if a.kind() == st {
                1nat
            } else {
                0nat
            },
{
    assert(s.push(a).drop_last() =~= s);
}

/// Pushing a combination whose code exceeds every code so far keeps the
/// sequence free of duplicates.
proof fn lemma_push_fresh_attack(s: Seq<Attack>, a: Attack)
    requires
        s.no_duplicates(),
        forall|k: int| 0 <= k < s.len() ==> (#[trigger] s[k]).code() < a.code(),
    ensures
        s.push(a).no_duplicates(),
        !s.contains(a),
{
}

impl Defend {
    /// The strategy this combination belongs to: how many dice it holds.
    pub open spec fn kind(self) -> Strategy {
        match self {
            Defend::WithOne(_) => Strategy::WithOne,
            Defend::WithTwo(_, _) => Strategy::WithTwo,
        }
    }

    pub fn strategy(&self) -> (r: Strategy)
        ensures
            r == self.kind(),
            r.dice() == self.faces().len(),
    {
        match self {
            Defend::WithOne(_) => Strategy::WithOne,
            Defend::WithTwo(_, _) => Strategy::WithTwo,
        }
    }

    /// The pips read as a number of two digits, a missing die as 0; the
    /// generator emits combinations in increasing order of it.
    spec fn code(self) -> int {
        match self {
            Defend::WithOne(a) => 10 * a.face(),
            Defend::WithTwo(a, b) => 10 * a.face() + b.face(),
        }
    }

    /// Every defend combination, each multiset of faces once, highest die
    /// first.
    pub fn all() -> (r: Vec<Defend>)
        ensures
            forall|i: int| 0 <= i < r@.len() ==> (#[trigger] r@[i]).is_sorted(),
            forall|d: Defend| d.is_sorted() ==> r@.contains(d),
            r@.no_duplicates(),
            count_defends(r@, Strategy::WithOne) == 6,
            count_defends(r@, Strategy::WithTwo) == 21,
            count_defends(r@, Strategy::WithThree) == 0,
            r@.len() == 27,
            r@ == defend_enumeration(),
    {
        let dice = Dice::all();
        let mut r: Vec<Defend> = Vec::new();
        let mut hi: usize = 0;
        while hi < 6
            invariant
                hi <= 6,
                dice@.len() == 6,
                forall|i: int| 0 <= i < 6 ==> #[trigger] dice@[i].face() == i + 1,
                forall|i: int| 0 <= i < 6 ==> #[trigger] dice@[i] == Dice::with_face(i + 1),
                r@ == defend_sequence(hi as nat),
                forall|k: int| 0 <= k < r@.len() ==> (#[trigger] r@[k]).is_sorted(),
                forall|k: int| 0 <= k < r@.len() ==> (#[trigger] r@[k]).code() < 10 * (hi + 1),
                r@.no_duplicates(),
                count_defends(r@, Strategy::WithOne) == hi,
                count_defends(r@, Strategy::WithTwo) == triangle(hi as nat),
                count_defends(r@, Strategy::WithThree) == 0,
                r@.len() == hi + triangle(hi as nat),
                forall|i: int| 0 <= i < hi ==> #[trigger] r@.contains(Defend::WithOne(dice@[i])),
                forall|i: int, j: int|
                    0 <= j <= i < hi ==> #[trigger] r@.contains(Defend::WithTwo(dice@[i], dice@[j])),
            decreases 6 - hi,
        {
            let one = Defend::WithOne(dice[hi]);
            proof {
                lemma_count_defends_push(r@, one);
                lemma_push_fresh_defend(r@, one);
            }
            r.push(one);
            proof {
                assert(defend_pairs(hi + 1, (hi + 1) as nat).take(0) =~= seq![]);
                assert(r@ =~= defend_sequence(hi as nat) + seq![Defend::WithOne(dice@[hi as int])]
                    + defend_pairs(hi + 1, (hi + 1) as nat).take(0));
            }
            let mut lo: usize = 0;
            while lo <= hi
                invariant
                    hi < 6,
                    lo <= hi + 1,
                    dice@.len() == 6,
                    forall|i: int| 0 <= i < 6 ==> #[trigger] dice@[i].face() == i + 1,
                    forall|i: int| 0 <= i < 6 ==> #[trigger] dice@[i] == Dice::with_face(i + 1),
                    r@ == defend_sequence(hi as nat) + seq![Defend::WithOne(dice@[hi as int])]
                        + defend_pairs(hi + 1, (hi + 1) as nat).take(lo as int),
                    forall|k: int| 0 <= k < r@.len() ==> (#[trigger] r@[k]).is_sorted(),
                    forall|k: int|
                        0 <= k < r@.len() ==> (#[trigger] r@[k]).code() < 10 * (hi + 1) + lo + 1,
                    r@.no_duplicates(),
                    count_defends(r@, Strategy::WithOne) == hi + 1,
                    count_defends(r@, Strategy::WithTwo) == triangle(hi as nat) + lo,
                    count_defends(r@, Strategy::WithThree) == 0,
                    r@.len() == hi + 1 + triangle(hi as nat) + lo,
                    forall|i: int|
                        0 <= i <= hi ==> #[trigger] r@.contains(Defend::WithOne(dice@[i])),
                    forall|i: int, j: int|
                        0 <= j <= i < 6 && (i < hi || (i == hi && j < lo))
                            ==> #[trigger] r@.contains(Defend::WithTwo(dice@[i], dice@[j])),
                decreases hi + 1 - lo,
            {
                let two = Defend::WithTwo(dice[hi], dice[lo]);
                proof {
                    lemma_count_defends_push(r@, two);
                    lemma_push_fresh_defend(r@, two);
                }
                let ghost before = r@;
                r.push(two);
                proof {
                    let pairs = defend_pairs(hi + 1, (hi + 1) as nat);
                    assert(pairs.take(lo + 1) =~= pairs.take(lo as int).push(two));
                    assert(r@ =~= defend_sequence(hi as nat) + seq![Defend::WithOne(dice@[hi as int])]
                        + pairs.take(lo + 1));
                }
                lo = lo + 1;
            }
            proof {
                let pairs = defend_pairs(hi + 1, (hi + 1) as nat);
                assert(pairs.take(hi + 1) =~= pairs);
                assert(r@ =~= defend_sequence((hi + 1) as nat));
            }
            hi = hi + 1;
        }
        proof {
            reveal_with_fuel(triangle, 7);
            assert forall|d: Defend| d.is_sorted() implies r@.contains(d) by {
                match d {
                    Defend::WithOne(x) => {
                        Dice::lemma_face_injective(x, dice@[x.face() - 1]);
                    },
                    Defend::WithTwo(x, y) => {
                        Dice::lemma_face_injective(x, dice@[x.face() - 1]);
                        Dice::lemma_face_injective(y, dice@[y.face() - 1]);
                    },
                }
            }
        }
        r
    }
}

/// The two-dice defend combinations headed by a die of `h` pips, the lower
/// die rising from 1 to `n`.
pub open spec fn defend_pairs(h: int, n: nat) -> Seq<Defend> {
    Seq::new(n, |k: int| Defend::WithTwo(Dice::with_face(h), Dice::with_face(k + 1)))
}

/// The defend combinations whose highest die shows at most `n` pips: for each
/// highest die in rising order, the single die and then its pairs.
pub open spec fn defend_sequence(n: nat) -> Seq<Defend>
    decreases n,
{
    if n == 0 {
        seq![]
    } else {
        defend_sequence((n - 1) as nat) + seq![Defend::WithOne(Dice::with_face(n as int))]
            + defend_pairs(n as int, n)
    }
}

/// Every defend combination, in the order the generator emits them.
pub open spec fn defend_enumeration() -> Seq<Defend> {
    defend_sequence(6)
}

/// How many combinations in `s` commit as many dice as `st`.
pub open spec fn count_defends(s: Seq<Defend>, st: Strategy) -> nat
    decreases s.len(),
{
    if s.len() == 0 {
        0
    } else {
        count_defends(s.drop_last(), st) + if s.last().kind() == st {
            1nat
        } else {
            0nat
        }
    }
}

proof fn lemma_count_defends_push(s: Seq<Defend>, d: Defend)
    ensures
        forall|st: Strategy|
            #[trigger] count_defends(s.push(d), st) == count_defends(s, st) + if d.kind() == st {
                1nat
            } else {
                0nat
            },
{
    assert(s.push(d).drop_last() =~= s);
}

/// Pushing a combination whose code exceeds every code so far keeps the
/// sequence free of duplicates.
proof fn lemma_push_fresh_defend(s: Seq<Defend>, d: Defend)
    requires
        s.no_duplicates(),
        forall|k: int| 0 <= k < s.len() ==> (#[trigger] s[k]).code() < d.code(),
    ensures
        s.push(d).no_duplicates(),
        !s.contains(d),
{
}

/// 1 + 2 + ... + n.
pub open spec fn triangle(n: nat) -> nat
    decreases n,
{
    if n == 0 {
        0
    } else {
        triangle((n - 1) as nat) + n
    }
}

/// triangle(1) + triangle(2) + ... + triangle(n).
pub open spec fn tetrahedron(n: nat) -> nat
    decreases n,
{
    if n == 0 {
        0
    } else {
        tetrahedron((n - 1) as nat) + triangle(n)
    }
}

} // verus!
