use vstd::prelude::*;

use vstd::arithmetic::div_mod::{
    lemma_fundamental_div_mod,
    lemma_fundamental_div_mod_converse_div,
};

use crate::event::{TestOutcome, TestOutcomeView};
use crate::output::outcome_views;
use crate::text::push_all;

verus! {

/// `num / den` rounded to the nearest whole number, halves rounded up.
pub open spec fn rounded(num: nat, den: nat) -> nat
    recommends
        den > 0,
{
    ((2 * num + den) / (2 * den)) as nat
}

proof fn lemma_rounded_by_remainder(num: nat, den: nat)
    requires
        den > 0,
    ensures
        rounded(num, den) == num / den + (if 2 * (num % den) >= den { 1int } else { 0int }),
{
    let q = (num / den) as int;
    let m = (num % den) as int;
    lemma_fundamental_div_mod(num as int, den as int);
    let up: int = if 2 * m >= den { 1 } else { 0 };
    let x = 2 * num + den;
    let d = 2 * den;
    assert(x == (q + up) * d + (2 * m + den - up * d)) by (nonlinear_arith)
        requires
            num == den * q + m,
            x == 2 * num + den,
            d == 2 * den,
    ;
    lemma_fundamental_div_mod_converse_div(x as int, d as int, q + up, 2 * m + den - up * d);
}

/// Rounds `num / den` to the nearest whole number, halves rounded up.
pub fn round_ratio(num: u64, den: u64) -> (r: u64)
    requires
        den > 0,
    ensures
        r == rounded(num as nat, den as nat),
{
    proof {
        lemma_rounded_by_remainder(num as nat, den as nat);
    }
    let q = num / den;
    let m = num % den;
    if m >= den - m {
        assert(den >= 2);
        assert(q <= num / 2) by {
            vstd::arithmetic::div_mod::lemma_div_is_ordered_by_denominator(num as int, 2, den as int);
        }
        q + 1
    } else {
        q
    }
}

/// Rounding a value that is already whole, written over any denominator,
/// gives it back: rounding twice is rounding once.
pub proof fn lemma_rounding_idempotent(num: nat, den: nat, k: nat)
    requires
        den > 0,
        k > 0,
    ensures
        rounded(rounded(num, den) * k, k) == rounded(num, den),
{
    let r = rounded(num, den);
    lemma_rounded_by_remainder(r * k, k);
    vstd::arithmetic::div_mod::lemma_mod_multiples_basic(r as int, k as int);
    vstd::arithmetic::div_mod::lemma_div_multiples_vanish(r as int, k as int);
    assert(r * k == k * r) by (nonlinear_arith);
}

/// The character of a decimal digit.
pub open spec fn digit_char(d: nat) -> char {
    if d == 0 {
        '0'
    } else if d == 1 {
        '1'
    } else if d == 2 {
        '2'
    } else if d == 3 {
        '3'
    } else if d == 4 {
        '4'
    } else if d == 5 {
        '5'
    } else if d == 6 {
        '6'
    } else if d == 7 {
        '7'
    } else if d == 8 {
        '8'
    } else {
        '9'
    }
}

/// `n` written in decimal, without leading zeros.
pub open spec fn decimal(n: nat) -> Seq<char>
    decreases n,
{
    if n < 10 {
        seq![digit_char(n)]
    } else {
        decimal(n / 10).push(digit_char(n % 10))
    }
}

fn digit_char_exec(d: u64) -> (r: char)
    requires
        d < 10,
    ensures
        r == digit_char(d as nat),
{
    if d == 0 {
        '0'
    } else if d == 1 {
        '1'
    } else if d == 2 {
        '2'
    } else if d == 3 {
        '3'
    } else if d == 4 {
        '4'
    } else if d == 5 {
        '5'
    } else if d == 6 {
        '6'
    } else if d == 7 {
        '7'
    } else if d == 8 {
        '8'
    } else {
        '9'
    }
}

/// Appends `n` in decimal to `s`.
pub fn push_decimal(s: &mut String, n: u64)
    ensures
        final(s)@ == old(s)@ + decimal(n as nat),
    decreases n,
{
    if n >= 10 {
        push_decimal(s, n / 10);
    }
    s.push(digit_char_exec(n % 10));
    assert(s@ == old(s)@ + decimal(n as nat));
}

/// A suite of tests, as the run configuration gives it. `points` is the
/// suite's budget in hundredths of a point.
pub struct SuiteSpec {
    pub number: String,
    pub name: String,
    pub points: u64,
    pub filter: String,
}

/// The model of a [`SuiteSpec`].
pub struct SuiteSpecView {
    pub number: Seq<char>,
    pub name: Seq<char>,
    pub points: nat,
    pub filter: Seq<char>,
}

impl View for SuiteSpec {
    type V = SuiteSpecView;

    open spec fn view(&self) -> SuiteSpecView {
        SuiteSpecView {
            number: self.number@,
            name: self.name@,
            points: self.points as nat,
            filter: self.filter@,
        }
    }
}

/// One graded test of the report. `score` and `max_score` are in hundredths
/// of a point.
pub struct ScoredTest {
    pub number: String,
    pub name: String,
    pub score: u64,
    pub max_score: u64,
    pub output: String,
}

/// The model of a [`ScoredTest`].
pub struct ScoredTestView {
    pub number: Seq<char>,
    pub name: Seq<char>,
    pub score: nat,
    pub max_score: nat,
    pub output: Seq<char>,
}

impl View for ScoredTest {
    type V = ScoredTestView;

    open spec fn view(&self) -> ScoredTestView {
        ScoredTestView {
            number: self.number@,
            name: self.name@,
            score: self.score as nat,
            max_score: self.max_score as nat,
            output: self.output@,
        }
    }
}

/// The models of a sequence of graded tests.
pub open spec fn scored_views(v: Seq<ScoredTest>) -> Seq<ScoredTestView> {
    v.map_values(|t: ScoredTest| t@)
}

/// The number of the `index`-th test (counting from one) of a suite.
pub open spec fn test_number(suite_number: Seq<char>, index: nat) -> Seq<char> {
    suite_number + "."@ + decimal(index)
}

/// The share of a suite's budget that each of its `count` tests is worth,
/// rounded to a hundredth of a point.
pub open spec fn share(points: nat, count: nat) -> nat {
    rounded(points, count)
}

/// The graded form of the `i`-th outcome (from zero) of a suite that
/// discovered `count` tests.
pub open spec fn scored_test(suite: SuiteSpecView, count: nat, i: nat, o: TestOutcomeView) -> ScoredTestView {
    ScoredTestView {
        number: test_number(suite.number, i + 1),
        name: suite.name + " - "@ + o.name,
        score: if o.passed { share(suite.points, count) } else { 0 },
        max_score: share(suite.points, count),
        output: o.diagnostic,
    }
}

/// The graded tests of a suite whose run discovered `outcomes`, in order;
/// none when it discovered none.
pub open spec fn scored_batch(suite: SuiteSpecView, outcomes: Seq<TestOutcomeView>) -> Seq<ScoredTestView> {
    Seq::new(outcomes.len(), |i: int| scored_test(suite, outcomes.len(), i as nat, outcomes[i]))
}

/// Grades the tests that a suite's run discovered: the budget is shared
/// evenly among them, and each passed test earns its share.
pub fn score_batch(suite: &SuiteSpec, outcomes: &Vec<TestOutcome>) -> (r: Vec<ScoredTest>)
    ensures
        scored_views(r@) == scored_batch(suite@, outcome_views(outcomes@)),
{
    let count = outcomes.len();
    let mut r: Vec<ScoredTest> = Vec::new();
    if count == 0 {
        assert(scored_views(r@) =~= scored_batch(suite@, outcome_views(outcomes@)));
        return r;
    }
    let each = round_ratio(suite.points, count as u64);
    let mut i: usize = 0;
    while i < count
        invariant
            count == outcomes@.len(),
            count > 0,
            i <= count,
            each == share(suite@.points, count as nat),
            scored_views(r@) =~= scored_batch(suite@, outcome_views(outcomes@)).subrange(0, i as int),
        decreases count - i,
    {
        let o = &outcomes[i];
        let mut number = suite.number.clone();
        number.push('.');
        push_decimal(&mut number, (i + 1) as u64);
        let mut name = suite.name.clone();
        push_all(&mut name, " - ");
        push_all(&mut name, o.name.as_str());
        let t = ScoredTest {
            number,
            name,
            score: if o.passed { each } else { 0 },
            max_score: each,
            output: o.diagnostic.clone(),
        };
        proof {
            reveal_strlit(".");
            assert("."@ =~= seq!['.']);
            assert(suite.number@.push('.') =~= suite.number@ + "."@);
            assert(t.number@ == test_number(suite@.number, (i + 1) as nat));
            assert(t.name@ == suite@.name + " - "@ + o@.name);
            assert(o@ == outcome_views(outcomes@)[i as int]);
            assert(t@ == scored_test(suite@, count as nat, i as nat, o@));
        }
        let ghost before = r@;
        r.push(t);
        i += 1;
        proof {
            assert(scored_views(r@) =~= scored_views(before).push(t@));
        }
    }
    r
}

/// The sum of the maximum scores of `ts`.
pub open spec fn total_max_score(ts: Seq<ScoredTestView>) -> nat
    decreases ts.len(),
{
    if ts.len() == 0 {
        0
    } else {
        total_max_score(ts.drop_last()) + ts.last().max_score
    }
}

proof fn lemma_batch_total(suite: SuiteSpecView, outcomes: Seq<TestOutcomeView>, k: nat)
    requires
        k <= outcomes.len(),
    ensures
        total_max_score(scored_batch(suite, outcomes).subrange(0, k as int)) == k * share(
            suite.points,
            outcomes.len(),
        ),
    decreases k,
{
    let b = scored_batch(suite, outcomes);
    let c = share(suite.points, outcomes.len());
    if k > 0 {
        lemma_batch_total(suite, outcomes, (k - 1) as nat);
        assert(b.subrange(0, k as int).drop_last() == b.subrange(0, k - 1));
        assert(b.subrange(0, k as int).last() == b[k - 1]);
        assert(b[k - 1].max_score == c);
        assert(k * c == (k - 1) * c + c) by (nonlinear_arith);
        assert(total_max_score(b.subrange(0, k as int)) == total_max_score(b.subrange(0, k - 1)) + c);
    } else {
        assert(total_max_score(b.subrange(0, 0)) == 0);
        assert(k * c == 0) by (nonlinear_arith)
            requires
                k == 0,
        ;
    }
}

/// A suite that discovered tests hands out its whole budget, but for the
/// rounding of each test's share: the maximum scores of its graded tests add
/// up to its points within half a hundredth of a point per test.
pub proof fn lemma_budget_distributed(suite: SuiteSpecView, outcomes: Seq<TestOutcomeView>)
    requires
        outcomes.len() > 0,
    ensures
        2 * total_max_score(scored_batch(suite, outcomes)) <= 2 * suite.points + outcomes.len(),
        2 * suite.points <= 2 * total_max_score(scored_batch(suite, outcomes)) + outcomes.len(),
{
    let n = outcomes.len();
    let p = suite.points;
    let b = scored_batch(suite, outcomes);
    lemma_batch_total(suite, outcomes, n);
    assert(b.subrange(0, n as int) == b);
    let r = rounded(p, n);
    let x: int = (2 * p + n) as int;
    let d: int = (2 * n) as int;
    lemma_fundamental_div_mod(x, d);
    let m = x % d;
    assert(r == x / d);
    assert(2 * (n * r) <= 2 * p + n && 2 * p <= 2 * (n * r) + n) by (nonlinear_arith)
        requires
            x == d * r + m,
            d == 2 * n,
            0 <= m < d,
            x == 2 * p + n,
    ;
}

/// A suite that discovered no tests adds no graded test, whatever its points.
pub proof fn lemma_no_outcomes_no_tests(suite: SuiteSpecView, outcomes: Seq<TestOutcomeView>)
    requires
        outcomes.len() == 0,
    ensures
        scored_batch(suite, outcomes).len() == 0,
{
}

proof fn lemma_decimal_nonempty(n: nat)
    ensures
        decimal(n).len() >= 1,
    decreases n,
{
    if n >= 10 {
        lemma_decimal_nonempty(n / 10);
    }
}

proof fn lemma_digit_char_injective(a: nat, b: nat)
    requires
        a < 10,
        b < 10,
        digit_char(a) == digit_char(b),
    ensures
        a == b,
{
}

/// Different numbers have different decimal forms.
pub proof fn lemma_decimal_injective(a: nat, b: nat)
    requires
        decimal(a) == decimal(b),
    ensures
        a == b,
    decreases a + b,
{
    if a < 10 && b < 10 {
        assert(decimal(a) == seq![digit_char(a)]);
        assert(decimal(b) == seq![digit_char(b)]);
        assert(decimal(a)[0] == decimal(b)[0]);
        assert(seq![digit_char(a)][0] == digit_char(a));
        assert(seq![digit_char(b)][0] == digit_char(b));
        lemma_digit_char_injective(a, b);
    } else if a < 10 {
        lemma_decimal_nonempty(b / 10);
        assert(decimal(b).len() >= 2);
    } else if b < 10 {
        lemma_decimal_nonempty(a / 10);
        assert(decimal(a).len() >= 2);
    } else {
        assert(decimal(a).drop_last() == decimal(a / 10));
        assert(decimal(b).drop_last() == decimal(b / 10));
        lemma_decimal_injective(a / 10, b / 10);
        assert(decimal(a) == decimal(a / 10).push(digit_char(a % 10)));
        assert(decimal(b) == decimal(b / 10).push(digit_char(b % 10)));
        assert(decimal(a).last() == decimal(b).last());
        assert(decimal(a / 10).push(digit_char(a % 10)).last() == digit_char(a % 10));
        assert(decimal(b / 10).push(digit_char(b % 10)).last() == digit_char(b % 10));
        lemma_digit_char_injective(a % 10, b % 10);
    }
}

/// The graded tests of a suite are numbered after the suite, one by one from
/// one, in the order in which they were discovered, and no two share a
/// number.
pub proof fn lemma_batch_numbering(suite: SuiteSpecView, outcomes: Seq<TestOutcomeView>)
    ensures
        forall|i: int|
            0 <= i < outcomes.len() ==> #[trigger] scored_batch(suite, outcomes)[i].number
                == suite.number + "."@ + decimal((i + 1) as nat),
        forall|i: int, j: int|
            0 <= i < j < outcomes.len() ==> scored_batch(suite, outcomes)[i].number
                != scored_batch(suite, outcomes)[j].number,
{
    let b = scored_batch(suite, outcomes);
    assert forall|i: int, j: int| 0 <= i < j < outcomes.len() implies b[i].number != b[j].number by {
        let pre = suite.number + "."@;
        if b[i].number == b[j].number {
            assert(b[i].number == pre + decimal((i + 1) as nat));
            assert(b[j].number == pre + decimal((j + 1) as nat));
            assert((pre + decimal((i + 1) as nat)).subrange(pre.len() as int, b[i].number.len() as int)
                == decimal((i + 1) as nat));
            assert((pre + decimal((j + 1) as nat)).subrange(pre.len() as int, b[j].number.len() as int)
                == decimal((j + 1) as nat));
            lemma_decimal_injective((i + 1) as nat, (j + 1) as nat);
        }
    }
}

} // verus!
