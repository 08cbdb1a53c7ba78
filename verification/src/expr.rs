//! Selector expressions and their evaluation against a toolchain version.
//!
//! Evaluation is more than a truth value. A build may assert a minimum
//! toolchain version once, with `minver`, and every selector evaluated after
//! that is held against the assertion: one that the asserted minimum makes
//! pointless is reported instead of being answered. The assertion is kept in
//! a [`Checker`] that the caller owns and hands to every evaluation.

use crate::bound::Bound;
use crate::date::Date;
use crate::release::ReleaseSelector;
use crate::version::{Channel, Version};
use vstd::prelude::*;

verus! {

/// A selector expression.
#[derive(Debug, PartialEq, Eq)]
pub enum Expr {
    /// `stable`: any stable toolchain.
    Stable,
    /// `beta`: any beta toolchain.
    Beta,
    /// `nightly`: any nightly toolchain or dev build.
    Nightly,
    /// `nightly(date)`: the nightly of exactly that date.
    NightlyDate(Date),
    /// `since(bound)`: the bound and everything after it.
    Since(Bound),
    /// `before(bound)`: everything before the bound.
    Before(Bound),
    /// `stable(release)`: a stable toolchain of exactly that release.
    ReleaseIs(ReleaseSelector),
    /// `not(selector)`
    Not(Box<Expr>),
    /// `any(selectors...)`: at least one of them holds.
    Any(Vec<Expr>),
    /// `all(selectors...)`: every one of them holds.
    All(Vec<Expr>),
    /// `minver(bound)`: asserts the minimum toolchain version of the build.
    MinVer(Bound),
}

/// What a selector expression says, as a mathematical value: the shape of
/// [`Expr`], with sequences for lists.
pub enum Selector {
    Stable,
    Beta,
    Nightly,
    NightlyDate(Date),
    Since(Bound),
    Before(Bound),
    ReleaseIs(ReleaseSelector),
    Not(Box<Selector>),
    Any(Seq<Selector>),
    All(Seq<Selector>),
    MinVer(Bound),
}

/// Why a selector was not answered.
#[derive(Debug, PartialEq, Eq)]
pub enum EvalError {
    /// A minimum version was asserted while one was already in force.
    Duplicate { asserted: Bound, requested: Bound },
    /// The selector can never decide anything under the asserted minimum.
    Contradiction { asserted: Bound, selector: Expr },
}

/// Why a selector was not answered, as a mathematical value.
pub enum Failure {
    Duplicate { asserted: Bound, requested: Bound },
    Contradiction { asserted: Bound, selector: Selector },
}

/// What evaluating a selector leads to: its answer, and the minimum version
/// in force afterwards.
pub struct Outcome {
    pub result: Result<bool, Failure>,
    pub minimum: Option<Bound>,
}

/// What evaluating the first selectors of a list leads to: their answers in
/// order, or the first failure among them, and the minimum version in force
/// afterwards.
pub struct Run {
    pub values: Result<Seq<bool>, Failure>,
    pub minimum: Option<Bound>,
}

/// The minimum toolchain version that a build has asserted, if any. It
/// starts out unset, and only evaluating a `minver` selector sets it.
pub struct Checker {
    minimum: Option<Bound>,
}

impl Expr {
    /// What the expression says.
    pub open spec fn model(self) -> Selector
        decreases self,
    {
        match self {
            Expr::Stable => Selector::Stable,
            Expr::Beta => Selector::Beta,
            Expr::Nightly => Selector::Nightly,
            Expr::NightlyDate(date) => Selector::NightlyDate(date),
            Expr::Since(bound) => Selector::Since(bound),
            Expr::Before(bound) => Selector::Before(bound),
            Expr::ReleaseIs(selector) => Selector::ReleaseIs(selector),
            Expr::Not(inner) => Selector::Not(Box::new(inner.model())),
            Expr::Any(list) => Selector::Any(Expr::models(list@)),
            Expr::All(list) => Selector::All(Expr::models(list@)),
            Expr::MinVer(bound) => Selector::MinVer(bound),
        }
    }

    /// What the expressions of a list say, in order.
    pub open spec fn models(list: Seq<Expr>) -> Seq<Selector>
        decreases list,
    {
        Seq::new(
            list.len(),
            |i: int|
                if 0 <= i < list.len() {
                    list[i].model()
                } else {
                    Selector::Stable
                },
        )
    }
}

impl View for Expr {
    type V = Selector;

    open spec fn view(&self) -> Selector {
        self.model()
    }
}

impl View for EvalError {
    type V = Failure;

    open spec fn view(&self) -> Failure {
        match self {
            EvalError::Duplicate { asserted, requested } => Failure::Duplicate {
                asserted: *asserted,
                requested: *requested,
            },
            EvalError::Contradiction { asserted, selector } => Failure::Contradiction {
                asserted: *asserted,
                selector: selector@,
            },
        }
    }
}

impl View for Checker {
    type V = Option<Bound>;

    closed spec fn view(&self) -> Option<Bound> {
        self.minimum
    }
}

/// The answer of an evaluation, as a mathematical value.
pub open spec fn answer(out: Result<bool, EvalError>) -> Result<bool, Failure> {
    match out {
        Ok(value) => Ok(value),
        Err(error) => Err(error@),
    }
}

impl Selector {
    /// The selector is one of the seven that test the version directly.
    pub open spec fn is_test(self) -> bool {
        !(self is Not || self is Any || self is All || self is MinVer)
    }

    /// A test holds of `version`. What is no test holds of none.
    ///
    /// `since` and `before` go by the version's place relative to the bound,
    /// so a beta or nightly that already carries a release number meets a
    /// lower bound on that number. `stable(release)` wants the channel to be
    /// stable as well.
    pub open spec fn holds(self, version: Version) -> bool {
        match self {
            Selector::Stable => version.channel is Stable,
            Selector::Beta => version.channel is Beta,
            Selector::Nightly => version.channel.nightly_track(),
            Selector::NightlyDate(date) => version.channel == Channel::Nightly(date),
            Selector::Since(bound) => !version.before(bound),
            Selector::Before(bound) => version.before(bound),
            Selector::ReleaseIs(selector) => version.channel is Stable && selector.admits(
                version.release,
            ),
            _ => false,
        }
    }

    /// A test is pointless under the asserted minimum version `minimum`:
    ///
    /// - `stable`, `beta` and `stable(release)` under a nightly minimum;
    /// - `stable(release)` under a release minimum above the release;
    /// - `nightly(date)` under a nightly minimum after the date;
    /// - `since` and `before` with a bound that ranks below the minimum.
    ///
    /// What is no test is never pointless.
    pub open spec fn contradicts(self, minimum: Bound) -> bool {
        match self {
            Selector::Stable | Selector::Beta => minimum is Nightly,
            Selector::NightlyDate(date) => match minimum {
                Bound::Nightly(floor) => date.earlier(floor),
                Bound::Stable(_) => false,
            },
            Selector::Since(bound) | Selector::Before(bound) => bound.below(minimum),
            Selector::ReleaseIs(selector) => Bound::Stable(selector).below(minimum),
            _ => false,
        }
    }

    /// What evaluating the selector against `version` leads to, with
    /// `minimum` the minimum version in force before.
    ///
    /// - `minver(bound)` fails if a minimum is in force already; otherwise it
    ///   puts `bound` in force and answers true.
    /// - A test fails if the minimum in force makes it pointless; otherwise
    ///   it answers whether it holds of the version.
    /// - `not`, `any` and `all` evaluate what they hold, in order, each under
    ///   the minimum that the one before left, and fail with the first
    ///   failure among them. Nothing is skipped: a later selector is
    ///   evaluated whatever the earlier ones answered.
    pub open spec fn outcome(self, version: Version, minimum: Option<Bound>) -> Outcome
        decreases self, 0nat,
    {
        match self {
            Selector::MinVer(bound) => match minimum {
                Some(asserted) => Outcome {
                    result: Err(Failure::Duplicate { asserted, requested: bound }),
                    minimum,
                },
                None => Outcome { result: Ok(true), minimum: Some(bound) },
            },
            Selector::Not(inner) => {
                let inner = inner.outcome(version, minimum);
                Outcome {
                    result: match inner.result {
                        Ok(value) => Ok(!value),
                        Err(failure) => Err(failure),
                    },
                    minimum: inner.minimum,
                }
            },
            Selector::Any(list) => {
                let run = Selector::run(list, version, minimum, list.len());
                Outcome {
                    result: match run.values {
                        Ok(values) => Ok(values.contains(true)),
                        Err(failure) => Err(failure),
                    },
                    minimum: run.minimum,
                }
            },
            Selector::All(list) => {
                let run = Selector::run(list, version, minimum, list.len());
                Outcome {
                    result: match run.values {
                        Ok(values) => Ok(!values.contains(false)),
                        Err(failure) => Err(failure),
                    },
                    minimum: run.minimum,
                }
            },
            _ => Outcome {
                result: match minimum {
                    Some(asserted) if self.contradicts(asserted) => Err(
                        Failure::Contradiction { asserted, selector: self },
                    ),
                    _ => Ok(self.holds(version)),
                },
                minimum,
            },
        }
    }

    /// What evaluating the first `count` selectors of `list` leads to, with
    /// `minimum` the minimum version in force before.
    pub open spec fn run(
        list: Seq<Selector>,
        version: Version,
        minimum: Option<Bound>,
        count: nat,
    ) -> Run
        decreases list, count,
    {
        if count == 0 || count > list.len() {
            Run { values: Ok(Seq::empty()), minimum }
        } else {
            let before = Selector::run(list, version, minimum, (count - 1) as nat);
            match before.values {
                Err(_) => before,
                Ok(values) => {
                    let next = list[count - 1].outcome(version, before.minimum);
                    Run {
                        values: match next.result {
                            Ok(value) => Ok(values.push(value)),
                            Err(failure) => Err(failure),
                        },
                        minimum: next.minimum,
                    }
                },
            }
        }
    }
}

impl Checker {
    /// A checker with no minimum version asserted.
    pub fn new() -> (out: Checker)
        ensures
            out@ is None,
    {
        Checker { minimum: None }
    }

    /// The minimum version asserted so far.
    pub fn minimum(&self) -> (out: Option<Bound>)
        ensures
            out == self@,
    {
        self.minimum
    }
}

impl Expr {
    /// A copy of a test.
    fn copy_of_test(&self) -> (out: Expr)
        requires
            self@.is_test(),
        ensures
            out == *self,
    {
        match self {
            Expr::Stable => Expr::Stable,
            Expr::Beta => Expr::Beta,
            Expr::Nightly => Expr::Nightly,
            Expr::NightlyDate(date) => Expr::NightlyDate(*date),
            Expr::Since(bound) => Expr::Since(*bound),
            Expr::Before(bound) => Expr::Before(*bound),
            Expr::ReleaseIs(selector) => Expr::ReleaseIs(*selector),
            _ => Expr::Stable,
        }
    }

    /// Tells whether a test holds of `version`. What is no test holds of
    /// none.
    pub fn test(&self, version: &Version) -> (b: bool)
        ensures
            b == self@.holds(*version),
    {
        match self {
            Expr::Stable => match version.channel {
                Channel::Stable => true,
                _ => false,
            },
            Expr::Beta => match version.channel {
                Channel::Beta => true,
                _ => false,
            },
            Expr::Nightly => version.channel.is_nightly_track(),
            Expr::NightlyDate(date) => version.is_at(&Bound::Nightly(*date)),
            Expr::Since(bound) => !version.is_before(bound),
            Expr::Before(bound) => version.is_before(bound),
            Expr::ReleaseIs(selector) => match version.channel {
                Channel::Stable => selector.matches(&version.release),
                _ => false,
            },
            _ => false,
        }
    }

    /// Tells whether a test is pointless under the asserted minimum version
    /// `minimum`. What is no test is never pointless.
    pub fn is_pointless(&self, minimum: &Bound) -> (b: bool)
        ensures
            b == self@.contradicts(*minimum),
    {
        match self {
            Expr::Stable | Expr::Beta => match minimum {
                Bound::Nightly(_) => true,
                Bound::Stable(_) => false,
            },
            Expr::NightlyDate(date) => match minimum {
                Bound::Nightly(floor) => date.is_earlier(floor),
                Bound::Stable(_) => false,
            },
            Expr::Since(bound) | Expr::Before(bound) => bound.is_below(minimum),
            Expr::ReleaseIs(selector) => Bound::Stable(*selector).is_below(minimum),
            _ => false,
        }
    }

    /// Evaluates the selector against the toolchain version `rustc`, under
    /// the minimum version that `checker` holds, and leaves in `checker` the
    /// minimum version in force afterwards.
    pub fn eval(&self, rustc: Version, checker: &mut Checker) -> (out: Result<bool, EvalError>)
        ensures
            answer(out) == self@.outcome(rustc, old(checker)@).result,
            final(checker)@ == self@.outcome(rustc, old(checker)@).minimum,
        decreases self, 0nat,
    {
        match self {
            Expr::MinVer(bound) => match checker.minimum {
                Some(asserted) => Err(EvalError::Duplicate { asserted, requested: *bound }),
                None => {
                    checker.minimum = Some(*bound);
                    Ok(true)
                },
            },
            Expr::Not(inner) => match inner.eval(rustc, checker) {
                Ok(value) => Ok(!value),
                Err(error) => Err(error),
            },
            Expr::Any(list) => match Expr::eval_each(list, rustc, checker) {
                Ok(found) => Ok(found.0),
                Err(error) => Err(error),
            },
            Expr::All(list) => match Expr::eval_each(list, rustc, checker) {
                Ok(found) => Ok(!found.1),
                Err(error) => Err(error),
            },
            _ => {
                match checker.minimum {
                    Some(asserted) => {
                        if self.is_pointless(&asserted) {
                            return Err(
                                EvalError::Contradiction {
                                    asserted,
                                    selector: self.copy_of_test(),
                                },
                            );
                        }
                    },
                    None => {},
                }
                Ok(self.test(&rustc))
            },
        }
    }

    /// Evaluates every selector of `list` in order and tells whether one of
    /// them answered true, and whether one of them answered false.
    fn eval_each(list: &Vec<Expr>, rustc: Version, checker: &mut Checker) -> (out: Result<
        (bool, bool),
        EvalError,
    >)
        ensures
            match Selector::run(
                Expr::models(list@),
                rustc,
                old(checker)@,
                list@.len(),
            ).values {
                Ok(values) => out == Ok::<(bool, bool), EvalError>(
                    (values.contains(true), values.contains(false)),
                ),
                Err(failure) => out is Err && out->Err_0@ == failure,
            },
            final(checker)@ == Selector::run(
                Expr::models(list@),
                rustc,
                old(checker)@,
                list@.len(),
            ).minimum,
        decreases list@, list@.len(),
    {
        let ghost start = checker@;
        let ghost models = Expr::models(list@);
        let ghost mut values: Seq<bool> = Seq::empty();
        let mut some_true = false;
        let mut some_false = false;
        let mut i: usize = 0;
        while i < list.len()
            invariant
                i <= list.len(),
                start == old(checker)@,
                models == Expr::models(list@),
                Selector::run(models, rustc, start, i as nat) == (Run {
                    values: Ok(values),
                    minimum: checker@,
                }),
                some_true == values.contains(true),
                some_false == values.contains(false),
            decreases list.len() - i,
        {
            let ghost before = values;
            assert(models[i as int] == list@[i as int]@);
            match list[i].eval(rustc, checker) {
                Ok(value) => {
                    if value {
                        some_true = true;
                    } else {
                        some_false = true;
                    }
                    proof {
                        values = before.push(value);
                        assert(values[before.len() as int] == value);
                        assert forall|b: bool| values.contains(b) <==> before.contains(b) || b
                            == value by {
                            if before.contains(b) {
                                let k = choose|k: int| 0 <= k < before.len() && before[k] == b;
                                assert(values[k] == b);
                            }
                        }
                    }
                },
                Err(error) => {
                    proof {
                        assert(Selector::run(models, rustc, start, (i + 1) as nat).values is Err);
                        lemma_run_fails(models, rustc, start, (i + 1) as nat, models.len());
                    }
                    return Err(error);
                },
            }
            i += 1;
        }
        Ok((some_true, some_false))
    }
}

/// Once the evaluation of a list has failed, going on changes nothing.
pub proof fn lemma_run_fails(
    list: Seq<Selector>,
    version: Version,
    minimum: Option<Bound>,
    failed: nat,
    count: nat,
)
    requires
        failed <= count <= list.len(),
        Selector::run(list, version, minimum, failed).values is Err,
    ensures
        Selector::run(list, version, minimum, count) == Selector::run(
            list,
            version,
            minimum,
            failed,
        ),
    decreases count,
{
    if failed < count {
        lemma_run_fails(list, version, minimum, failed, (count - 1) as nat);
    }
}

/// A minimum version in force stays in force: no evaluation changes or
/// clears it.
pub proof fn lemma_minimum_stays(selector: Selector, version: Version, asserted: Bound)
    ensures
        selector.outcome(version, Some(asserted)).minimum == Some(asserted),
    decreases selector, 0nat,
{
    match selector {
        Selector::Not(inner) => {
            lemma_minimum_stays(*inner, version, asserted);
        },
        Selector::Any(list) => {
            lemma_minimum_stays_in_run(list, version, asserted, list.len());
        },
        Selector::All(list) => {
            lemma_minimum_stays_in_run(list, version, asserted, list.len());
        },
        _ => {},
    }
}

/// A minimum version in force stays in force through a list of selectors.
pub proof fn lemma_minimum_stays_in_run(
    list: Seq<Selector>,
    version: Version,
    asserted: Bound,
    count: nat,
)
    ensures
        Selector::run(list, version, Some(asserted), count).minimum == Some(asserted),
    decreases list, count,
{
    if 0 < count <= list.len() {
        lemma_minimum_stays_in_run(list, version, asserted, (count - 1) as nat);
        lemma_minimum_stays(list[count - 1], version, asserted);
    }
}

/// A toolchain meets the lower bound of a release number that stands for
/// its own release, whatever its channel; but it is that stable release
/// only if its channel is stable. This holds with no minimum version in
/// force, and with one that does not rank above the release number.
pub proof fn lemma_since_goes_by_release_alone(
    selector: ReleaseSelector,
    version: Version,
    minimum: Option<Bound>,
)
    requires
        selector.admits(version.release),
        minimum is Some ==> !Bound::Stable(selector).below(minimum->0),
    ensures
        Selector::Since(Bound::Stable(selector)).outcome(version, minimum).result == Ok::<
            bool,
            Failure,
        >(true),
        Selector::ReleaseIs(selector).outcome(version, minimum).result == Ok::<bool, Failure>(
            version.channel is Stable,
        ),
{
}

/// Asserting a minimum version puts it in force, and asserting one again,
/// the same or another, fails and names both without replacing the first.
pub proof fn lemma_second_assertion_fails(first: Bound, second: Bound, version: Version)
    ensures
        Selector::MinVer(first).outcome(version, None) == (Outcome {
            result: Ok(true),
            minimum: Some(first),
        }),
        Selector::MinVer(second).outcome(version, Some(first)) == (Outcome {
            result: Err(Failure::Duplicate { asserted: first, requested: second }),
            minimum: Some(first),
        }),
{
}

/// Under a nightly minimum version, `stable` and `beta` are not answered
/// false: they fail as contradictions.
pub proof fn lemma_stable_contradicts_nightly_minimum(date: Date, version: Version)
    ensures
        Selector::Stable.outcome(version, Some(Bound::Nightly(date))).result == Err::<
            bool,
            Failure,
        >(Failure::Contradiction { asserted: Bound::Nightly(date), selector: Selector::Stable }),
        Selector::Beta.outcome(version, Some(Bound::Nightly(date))).result == Err::<bool, Failure>(
            Failure::Contradiction { asserted: Bound::Nightly(date), selector: Selector::Beta },
        ),
{
}

/// With no minimum version in force, `before` answers the opposite of
/// `since`.
pub proof fn lemma_before_negates_since(bound: Bound, version: Version)
    ensures
        Selector::Before(bound).outcome(version, None).result == Selector::Not(
            Box::new(Selector::Since(bound)),
        ).outcome(version, None).result,
{
    let since = Selector::Since(bound);
    let not = Selector::Not(Box::new(since));
    assert(since.outcome(version, None).result == Ok::<bool, Failure>(!version.before(bound)));
    assert(not.outcome(version, None).result == Ok::<bool, Failure>(version.before(bound)));
}

} // verus!
