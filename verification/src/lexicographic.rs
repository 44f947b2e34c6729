//! The lexicographic order on sequences of integers.
use vstd::prelude::*;

verus! {

/// `a` comes before `b`: at the first place where they differ `a` has the smaller number, or `a` is
/// the beginning of `b`.
pub open spec fn lex_lt(a: Seq<u64>, b: Seq<u64>) -> bool
    decreases a.len(),
{
    if b.len() == 0 {
        false
    } else if a.len() == 0 {
        true
    } else if a[0] != b[0] {
        a[0] < b[0]
    } else {
        lex_lt(a.skip(1), b.skip(1))
    }
}

/// Of two different sequences exactly one comes before the other, and none comes before itself.
pub proof fn lemma_lex_total(a: Seq<u64>, b: Seq<u64>)
    ensures
        a == b ==> !lex_lt(a, b),
        a != b ==> (lex_lt(a, b) <==> !lex_lt(b, a)),
    decreases a.len(),
{
    if a.len() > 0 && b.len() > 0 && a[0] == b[0] {
        lemma_lex_total(a.skip(1), b.skip(1));
        if a.skip(1) == b.skip(1) {
            assert(a =~= seq![a[0]] + a.skip(1));
            assert(b =~= seq![b[0]] + b.skip(1));
        }
    } else if a.len() == 0 && b.len() == 0 {
        assert(a =~= b);
    }
}

/// The order is transitive.
pub proof fn lemma_lex_transitive(a: Seq<u64>, b: Seq<u64>, c: Seq<u64>)
    requires
        lex_lt(a, b),
        lex_lt(b, c),
    ensures
        lex_lt(a, c),
    decreases a.len(),
{
    if a.len() > 0 && a[0] == b[0] && b[0] == c[0] {
        lemma_lex_transitive(a.skip(1), b.skip(1), c.skip(1));
    }
}

/// How two sequences compare.
#[derive(Clone, Copy, Debug, PartialEq, Eq, Structural)]
pub enum Comparison {
    Before,
    Same,
    After,
}

/// Compares two sequences.
pub fn compare(a: &Vec<u64>, b: &Vec<u64>) -> (comparison: Comparison)
    ensures
        comparison == Comparison::Before <==> lex_lt(a@, b@),
        comparison == Comparison::Same <==> a@ == b@,
        comparison == Comparison::After <==> lex_lt(b@, a@),
{
    proof {
        lemma_lex_total(a@, b@);
    }
    let mut i: usize = 0;
    assert(a@.skip(0) =~= a@);
    assert(b@.skip(0) =~= b@);
    while i < a.len() && i < b.len()
        invariant
            i <= a@.len(),
            i <= b@.len(),
            lex_lt(a@, b@) == lex_lt(a@.skip(i as int), b@.skip(i as int)),
            lex_lt(b@, a@) == lex_lt(b@.skip(i as int), a@.skip(i as int)),
            a@ == b@ ==> !lex_lt(a@, b@),
            a@ != b@ ==> (lex_lt(a@, b@) <==> !lex_lt(b@, a@)),
            forall|j: int| 0 <= j < i ==> a@[j] == b@[j],
        decreases a@.len() - i,
    {
        let x: u64 = a[i];
        let y: u64 = b[i];
        assert(a@.skip(i as int)[0] == x);
        assert(b@.skip(i as int)[0] == y);
        if x != y {
            return if x < y {
                Comparison::Before
            } else {
                Comparison::After
            };
        }
        assert(a@.skip(i as int).skip(1) =~= a@.skip(i + 1));
        assert(b@.skip(i as int).skip(1) =~= b@.skip(i + 1));
        i += 1;
    }
    if i < b.len() {
        Comparison::Before
    } else if i < a.len() {
        Comparison::After
    } else {
        assert(a@ =~= b@);
        Comparison::Same
    }
}

/// What comes after a common beginning decides: the first two numbers that differ or, where there are none, the end
/// of the shorter sequence.
pub proof fn lemma_first_difference_decides(
    common: Seq<u64>,
    low: u64,
    high: u64,
    rest: Seq<u64>,
    other_rest: Seq<u64>,
)
    ensures
        low < high ==> lex_lt(common + seq![low] + rest, common + seq![high] + other_rest),
        lex_lt(common, common + seq![low] + rest),
        !lex_lt(common + seq![low] + rest, common),
    decreases common.len(),
{
    let a = common + seq![low] + rest;
    let b = common + seq![high] + other_rest;
    if common.len() > 0 {
        lemma_first_difference_decides(common.skip(1), low, high, rest, other_rest);
        assert(a.skip(1) =~= common.skip(1) + seq![low] + rest);
        assert(b.skip(1) =~= common.skip(1) + seq![high] + other_rest);
        assert(a[0] == common[0] && b[0] == common[0]);
    } else {
        assert(a[0] == low && b[0] == high);
    }
}

} // verus!
