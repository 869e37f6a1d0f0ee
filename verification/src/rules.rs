//! The rule evaluator: which components and scores a job's attributes
//! give rise to under a rule configuration.

use crate::attributes::AttributeMap;
use crate::domain::{
    component_views, score_views, valid_factor, Component, ComponentView, Score, ScoreError,
    ScoreView,
};
use crate::names::{make_string_valid, sanitized, valid_name};
use crate::pattern::{pattern_compiles, pattern_matches, Pattern, PatternError};
use crate::text::{parse_u64, parsed_u64};
use vstd::prelude::*;

verus! {

/// What a condition is: the attribute it looks at and the text of the
/// pattern that the attribute's value has to match.
pub struct ConditionView {
    pub key: Seq<char>,
    pub pattern: Seq<char>,
}

/// What a score rule is.
pub struct ScoreRuleView {
    pub name: Seq<char>,
    pub factor_bits: u64,
    pub only_if: Option<ConditionView>,
}

/// What a component rule is.
pub struct ComponentRuleView {
    pub name: Seq<char>,
    pub key: Seq<char>,
    pub only_if: Option<ConditionView>,
    pub scores: Seq<ScoreRuleView>,
}

/// A rule applies only if the attribute `key` matches `pattern`.
#[derive(Debug)]
pub struct Condition {
    pub key: String,
    pub pattern: Pattern,
}

impl View for Condition {
    type V = ConditionView;

    open spec fn view(&self) -> ConditionView {
        ConditionView { key: self.key@, pattern: self.pattern@ }
    }
}

impl Condition {
    /// The condition that the attribute `key` matches the regular
    /// expression `matches`, which is compiled here, once.
    pub fn new(key: String, matches: String) -> (r: Result<Condition, PatternError>)
        ensures
            r is Ok <==> pattern_compiles(matches@),
            r matches Ok(c) ==> c@ == (ConditionView { key: key@, pattern: matches@ }),
            r matches Err(e) ==> e.source@ == matches@,
    {
        match Pattern::new(matches) {
            Ok(pattern) => Ok(Condition { key, pattern }),
            Err(e) => Err(e),
        }
    }
}

/// The view of an optional condition.
pub open spec fn condition_view(only_if: Option<Condition>) -> Option<ConditionView> {
    match only_if {
        Some(c) => Some(c@),
        None => None,
    }
}

/// How to make one score: its name, the bit pattern of its factor, and
/// the condition under which it is attached.
#[derive(Debug)]
pub struct ScoreRule {
    pub name: String,
    pub factor_bits: u64,
    pub only_if: Option<Condition>,
}

impl View for ScoreRule {
    type V = ScoreRuleView;

    open spec fn view(&self) -> ScoreRuleView {
        ScoreRuleView {
            name: self.name@,
            factor_bits: self.factor_bits,
            only_if: condition_view(self.only_if),
        }
    }
}

/// The views of a list of score rules, in the same order.
pub open spec fn score_rule_views(rules: Seq<ScoreRule>) -> Seq<ScoreRuleView> {
    rules.map_values(|r: ScoreRule| r@)
}

/// How to make one component: its name, the attribute that holds its
/// amount, the condition under which it is part of the record, and the
/// rules for its scores.
#[derive(Debug)]
pub struct ComponentRule {
    pub name: String,
    pub key: String,
    pub only_if: Option<Condition>,
    pub scores: Vec<ScoreRule>,
}

impl View for ComponentRule {
    type V = ComponentRuleView;

    open spec fn view(&self) -> ComponentRuleView {
        ComponentRuleView {
            name: self.name@,
            key: self.key@,
            only_if: condition_view(self.only_if),
            scores: score_rule_views(self.scores@),
        }
    }
}

/// The views of a list of component rules, in the same order.
pub open spec fn component_rule_views(rules: Seq<ComponentRule>) -> Seq<ComponentRuleView> {
    rules.map_values(|r: ComponentRule| r@)
}

/// What a site configures: how its records are named and which components
/// they hold.
#[derive(Debug)]
pub struct Settings {
    pub record_prefix: String,
    pub site_id: String,
    pub components: Vec<ComponentRule>,
}

/// What a site's settings are.
pub struct SettingsView {
    pub record_prefix: Seq<char>,
    pub site_id: Seq<char>,
    pub components: Seq<ComponentRuleView>,
}

impl View for Settings {
    type V = SettingsView;

    open spec fn view(&self) -> SettingsView {
        SettingsView {
            record_prefix: self.record_prefix@,
            site_id: self.site_id@,
            components: component_rule_views(self.components@),
        }
    }
}

/// Why a job's attributes could not be turned into components.
#[derive(Debug)]
pub enum EvalError {
    /// A rule refers to an attribute that the job does not have.
    MissingAttribute { key: String },
    /// The attribute that holds an amount is no unsigned decimal number.
    UnparsableAmount { key: String, value: String },
    /// A component's name is not valid once its forbidden characters are
    /// removed; `raw` is the name as configured.
    InvalidComponentName { raw: String },
    /// A score's name is not valid.
    InvalidScoreName { raw: String },
    /// A score's factor is negative, infinite or not a number.
    InvalidFactor { name: String, factor_bits: u64 },
}

/// What an [`EvalError`] says.
pub enum EvalErrorView {
    MissingAttribute { key: Seq<char> },
    UnparsableAmount { key: Seq<char>, value: Seq<char> },
    InvalidComponentName { raw: Seq<char> },
    InvalidScoreName { raw: Seq<char> },
    InvalidFactor { name: Seq<char>, factor_bits: u64 },
}

impl View for EvalError {
    type V = EvalErrorView;

    open spec fn view(&self) -> EvalErrorView {
        match self {
            EvalError::MissingAttribute { key } => EvalErrorView::MissingAttribute { key: key@ },
            EvalError::UnparsableAmount { key, value } => EvalErrorView::UnparsableAmount {
                key: key@,
                value: value@,
            },
            EvalError::InvalidComponentName { raw } => EvalErrorView::InvalidComponentName {
                raw: raw@,
            },
            EvalError::InvalidScoreName { raw } => EvalErrorView::InvalidScoreName { raw: raw@ },
            EvalError::InvalidFactor { name, factor_bits } => EvalErrorView::InvalidFactor {
                name: name@,
                factor_bits: *factor_bits,
            },
        }
    }
}

/// Whether a rule with the condition `only_if` applies to `job`. A rule
/// without condition always applies. A condition on an attribute that the
/// job lacks cannot be decided, which is an error.
pub open spec fn condition_outcome(
    only_if: Option<ConditionView>,
    job: Map<Seq<char>, Seq<char>>,
) -> Result<bool, EvalErrorView> {
    match only_if {
        None => Ok(true),
        Some(c) => if job.contains_key(c.key) {
            Ok(pattern_matches(c.pattern, job[c.key]))
        } else {
            Err(EvalErrorView::MissingAttribute { key: c.key })
        },
    }
}

/// What one score rule gives for `job`: no score if its condition does
/// not hold, else the score, which must have a valid name and a valid
/// factor.
pub open spec fn score_outcome(rule: ScoreRuleView, job: Map<Seq<char>, Seq<char>>) -> Result<
    Option<ScoreView>,
    EvalErrorView,
> {
    match condition_outcome(rule.only_if, job) {
        Err(e) => Err(e),
        Ok(false) => Ok(None),
        Ok(true) => if !valid_name(rule.name) {
            Err(EvalErrorView::InvalidScoreName { raw: rule.name })
        } else if !valid_factor(rule.factor_bits) {
            Err(EvalErrorView::InvalidFactor { name: rule.name, factor_bits: rule.factor_bits })
        } else {
            Ok(Some(ScoreView { name: rule.name, factor_bits: rule.factor_bits }))
        },
    }
}

/// What a list of score rules gives for `job`: the scores of the rules
/// that apply, in the rules' order, or the error of the first rule that
/// fails.
pub open spec fn scores_outcome(rules: Seq<ScoreRuleView>, job: Map<Seq<char>, Seq<char>>) -> Result<
    Seq<ScoreView>,
    EvalErrorView,
>
    decreases rules.len(),
{
    if rules.len() == 0 {
        Ok(Seq::empty())
    } else {
        match scores_outcome(rules.drop_last(), job) {
            Err(e) => Err(e),
            Ok(before) => match score_outcome(rules.last(), job) {
                Err(e) => Err(e),
                Ok(None) => Ok(before),
                Ok(Some(score)) => Ok(before.push(score)),
            },
        }
    }
}

/// What one component rule gives for `job`: no component if its
/// condition does not hold; else the component named by the rule's
/// sanitized name, with the amount read from the attribute `key` and the
/// scores of its score rules. The checks come in this order: the
/// condition, the amount, the scores, the name.
pub open spec fn component_outcome(
    rule: ComponentRuleView,
    job: Map<Seq<char>, Seq<char>>,
) -> Result<Option<ComponentView>, EvalErrorView> {
    match condition_outcome(rule.only_if, job) {
        Err(e) => Err(e),
        Ok(false) => Ok(None),
        Ok(true) => if !job.contains_key(rule.key) {
            Err(EvalErrorView::MissingAttribute { key: rule.key })
        } else {
            match parsed_u64(job[rule.key]) {
                None => Err(EvalErrorView::UnparsableAmount { key: rule.key, value: job[rule.key] }),
                Some(amount) => match scores_outcome(rule.scores, job) {
                    Err(e) => Err(e),
                    Ok(scores) => if valid_name(sanitized(rule.name)) {
                        Ok(Some(ComponentView { name: sanitized(rule.name), amount, scores }))
                    } else {
                        Err(EvalErrorView::InvalidComponentName { raw: rule.name })
                    },
                },
            }
        },
    }
}

/// What a rule configuration gives for `job`: the components of the
/// rules that apply, in the rules' order, or the error of the first rule
/// that fails.
pub open spec fn components_outcome(
    rules: Seq<ComponentRuleView>,
    job: Map<Seq<char>, Seq<char>>,
) -> Result<Seq<ComponentView>, EvalErrorView>
    decreases rules.len(),
{
    if rules.len() == 0 {
        Ok(Seq::empty())
    } else {
        match components_outcome(rules.drop_last(), job) {
            Err(e) => Err(e),
            Ok(before) => match component_outcome(rules.last(), job) {
                Err(e) => Err(e),
                Ok(None) => Ok(before),
                Ok(Some(component)) => Ok(before.push(component)),
            },
        }
    }
}

/// What a computed verdict says.
pub open spec fn verdict_view(r: Result<bool, EvalError>) -> Result<bool, EvalErrorView> {
    match r {
        Ok(b) => Ok(b),
        Err(e) => Err(e@),
    }
}

/// What a computed optional score says.
pub open spec fn score_result_view(r: Result<Option<Score>, EvalError>) -> Result<
    Option<ScoreView>,
    EvalErrorView,
> {
    match r {
        Ok(Some(score)) => Ok(Some(score@)),
        Ok(None) => Ok(None),
        Err(e) => Err(e@),
    }
}

/// What a computed list of scores says.
pub open spec fn scores_result_view(r: Result<Vec<Score>, EvalError>) -> Result<
    Seq<ScoreView>,
    EvalErrorView,
> {
    match r {
        Ok(scores) => Ok(score_views(scores@)),
        Err(e) => Err(e@),
    }
}

/// What a computed optional component says.
pub open spec fn component_result_view(r: Result<Option<Component>, EvalError>) -> Result<
    Option<ComponentView>,
    EvalErrorView,
> {
    match r {
        Ok(Some(component)) => Ok(Some(component@)),
        Ok(None) => Ok(None),
        Err(e) => Err(e@),
    }
}

/// What a computed list of components says.
pub open spec fn components_result_view(r: Result<Vec<Component>, EvalError>) -> Result<
    Seq<ComponentView>,
    EvalErrorView,
> {
    match r {
        Ok(components) => Ok(component_views(components@)),
        Err(e) => Err(e@),
    }
}

/// Once the first `n` score rules fail, the whole list fails in the same
/// way.
proof fn lemma_scores_fail_early(rules: Seq<ScoreRuleView>, job: Map<Seq<char>, Seq<char>>, n: int)
    requires
        0 <= n <= rules.len(),
        scores_outcome(rules.take(n), job) is Err,
    ensures
        scores_outcome(rules, job) == scores_outcome(rules.take(n), job),
    decreases rules.len() - n,
{
    if n < rules.len() {
        assert(rules.take(n + 1).drop_last() == rules.take(n));
        lemma_scores_fail_early(rules, job, n + 1);
    } else {
        assert(rules.take(n) == rules);
    }
}

/// Once the first `n` component rules fail, the whole configuration fails
/// in the same way.
proof fn lemma_components_fail_early(
    rules: Seq<ComponentRuleView>,
    job: Map<Seq<char>, Seq<char>>,
    n: int,
)
    requires
        0 <= n <= rules.len(),
        components_outcome(rules.take(n), job) is Err,
    ensures
        components_outcome(rules, job) == components_outcome(rules.take(n), job),
    decreases rules.len() - n,
{
    if n < rules.len() {
        assert(rules.take(n + 1).drop_last() == rules.take(n));
        lemma_components_fail_early(rules, job, n + 1);
    } else {
        assert(rules.take(n) == rules);
    }
}

/// Decides whether a rule with the condition `only_if` applies to `job`.
pub fn condition_holds(only_if: &Option<Condition>, job: &AttributeMap) -> (r: Result<
    bool,
    EvalError,
>)
    ensures
        verdict_view(r) == condition_outcome(condition_view(*only_if), job@),
{
    match only_if {
        None => Ok(true),
        Some(c) => match job.get(c.key.as_str()) {
            Some(value) => Ok(c.pattern.is_match(value.as_str())),
            None => Err(EvalError::MissingAttribute { key: c.key.clone() }),
        },
    }
}

/// Applies one score rule to `job`.
pub fn construct_score(rule: &ScoreRule, job: &AttributeMap) -> (r: Result<
    Option<Score>,
    EvalError,
>)
    ensures
        score_result_view(r) == score_outcome(rule@, job@),
{
    match condition_holds(&rule.only_if, job) {
        Err(e) => Err(e),
        Ok(false) => Ok(None),
        Ok(true) => match Score::new(rule.name.clone(), rule.factor_bits) {
            Ok(score) => Ok(Some(score)),
            Err(ScoreError::InvalidName { raw }) => Err(EvalError::InvalidScoreName { raw }),
            Err(ScoreError::InvalidFactor { factor_bits }) => Err(
                EvalError::InvalidFactor { name: rule.name.clone(), factor_bits },
            ),
        },
    }
}

/// Applies a list of score rules to `job`, in order.
pub fn construct_scores(rules: &Vec<ScoreRule>, job: &AttributeMap) -> (r: Result<
    Vec<Score>,
    EvalError,
>)
    ensures
        scores_result_view(r) == scores_outcome(score_rule_views(rules@), job@),
{
    let ghost all = score_rule_views(rules@);
    let mut out: Vec<Score> = Vec::new();
    let mut i: usize = 0;
    assert(score_views(out@) == Seq::<ScoreView>::empty());
    while i < rules.len()
        invariant
            i <= rules.len(),
            all == score_rule_views(rules@),
            scores_outcome(all.take(i as int), job@) == Ok::<_, EvalErrorView>(score_views(out@)),
        decreases rules.len() - i,
    {
        assert(all.take(i + 1).drop_last() == all.take(i as int));
        assert(all.take(i + 1).last() == rules@[i as int]@);
        let ghost before = out@;
        match construct_score(&rules[i], job) {
            Err(e) => {
                proof {
                    lemma_scores_fail_early(all, job@, i + 1);
                }
                return Err(e);
            },
            Ok(None) => {},
            Ok(Some(score)) => {
                out.push(score);
                assert(score_views(out@) == score_views(before).push(score@));
            },
        }
        i += 1;
    }
    assert(all.take(i as int) == all);
    Ok(out)
}

/// Applies one component rule to `job`.
pub fn construct_component(rule: &ComponentRule, job: &AttributeMap) -> (r: Result<
    Option<Component>,
    EvalError,
>)
    ensures
        component_result_view(r) == component_outcome(rule@, job@),
{
    match condition_holds(&rule.only_if, job) {
        Err(e) => Err(e),
        Ok(false) => Ok(None),
        Ok(true) => {
            let name = make_string_valid(rule.name.as_str());
            let value = match job.get(rule.key.as_str()) {
                None => {
                    return Err(EvalError::MissingAttribute { key: rule.key.clone() });
                },
                Some(value) => value,
            };
            let amount = match parse_u64(value.as_str()) {
                None => {
                    return Err(
                        EvalError::UnparsableAmount { key: rule.key.clone(), value: value.clone() },
                    );
                },
                Some(amount) => amount,
            };
            let scores = match construct_scores(&rule.scores, job) {
                Err(e) => {
                    return Err(e);
                },
                Ok(scores) => scores,
            };
            match Component::new(name, amount, scores) {
                Some(component) => Ok(Some(component)),
                None => Err(EvalError::InvalidComponentName { raw: rule.name.clone() }),
            }
        },
    }
}

/// Derives the components of a job's record from its attributes.
///
/// The rules are taken in the order of the configuration. A rule whose
/// condition does not hold contributes nothing. The first rule that
/// cannot be evaluated ends the derivation with its error: a condition or
/// an amount that refers to a missing attribute, an amount that is no
/// unsigned decimal number, a score or a component that cannot be made.
pub fn construct_components(config: &Settings, job: &AttributeMap) -> (r: Result<
    Vec<Component>,
    EvalError,
>)
    ensures
        components_result_view(r) == components_outcome(
            component_rule_views(config.components@),
            job@,
        ),
{
    let rules = &config.components;
    let ghost all = component_rule_views(rules@);
    let mut out: Vec<Component> = Vec::new();
    let mut i: usize = 0;
    assert(component_views(out@) == Seq::<ComponentView>::empty());
    while i < rules.len()
        invariant
            i <= rules.len(),
            rules@ == config.components@,
            all == component_rule_views(rules@),
            components_outcome(all.take(i as int), job@) == Ok::<_, EvalErrorView>(
                component_views(out@),
            ),
        decreases rules.len() - i,
    {
        assert(all.take(i + 1).drop_last() == all.take(i as int));
        assert(all.take(i + 1).last() == rules@[i as int]@);
        let ghost before = out@;
        match construct_component(&rules[i], job) {
            Err(e) => {
                proof {
                    lemma_components_fail_early(all, job@, i + 1);
                }
                return Err(e);
            },
            Ok(None) => {},
            Ok(Some(component)) => {
                out.push(component);
                assert(component_views(out@) == component_views(before).push(component@));
            },
        }
        i += 1;
    }
    assert(all.take(i as int) == all);
    Ok(out)
}

/// Whether `a` is what `b` starts with.
pub open spec fn starts<T>(b: Seq<T>, a: Seq<T>) -> bool {
    &&& a.len() <= b.len()
    &&& forall|j: int| 0 <= j < a.len() ==> a[j] == b[j]
}

/// Where a configuration can be evaluated, so can its first `n` rules, and
/// what they give is the start of what the whole configuration gives.
proof fn lemma_components_of_prefix(
    rules: Seq<ComponentRuleView>,
    job: Map<Seq<char>, Seq<char>>,
    n: int,
)
    requires
        0 <= n <= rules.len(),
        components_outcome(rules, job) is Ok,
    ensures
        components_outcome(rules.take(n), job) is Ok,
        starts(components_outcome(rules, job)->Ok_0, components_outcome(rules.take(n), job)->Ok_0),
    decreases rules.len() - n,
{
    if n < rules.len() {
        assert(rules.take(n + 1).drop_last() == rules.take(n));
        lemma_components_of_prefix(rules, job, n + 1);
    } else {
        assert(rules.take(n) == rules);
    }
}

/// A component rule without condition is never passed over: wherever the
/// configuration can be evaluated for a job, the result holds the rule's
/// component, right after the components of the rules before it. The
/// component has the rule's sanitized name, the amount that the rule's
/// attribute holds, and the scores of the rule's score rules.
pub proof fn lemma_unconditional_component_included(
    rules: Seq<ComponentRuleView>,
    job: Map<Seq<char>, Seq<char>>,
    i: int,
)
    requires
        0 <= i < rules.len(),
        rules[i].only_if is None,
        components_outcome(rules, job) is Ok,
    ensures
        components_outcome(rules.take(i), job) is Ok,
        ({
            let out = components_outcome(rules, job)->Ok_0;
            let at = components_outcome(rules.take(i), job)->Ok_0.len() as int;
            &&& at < out.len()
            &&& component_outcome(rules[i], job) == Ok::<_, EvalErrorView>(Some(out[at]))
            &&& out[at].name == sanitized(rules[i].name)
            &&& job.contains_key(rules[i].key)
            &&& parsed_u64(job[rules[i].key]) == Some(out[at].amount)
            &&& scores_outcome(rules[i].scores, job) == Ok::<_, EvalErrorView>(out[at].scores)
        }),
{
    lemma_components_of_prefix(rules, job, i);
    lemma_components_of_prefix(rules, job, i + 1);
    assert(rules.take(i + 1).drop_last() == rules.take(i));
    assert(rules.take(i + 1).last() == rules[i]);
    let before = components_outcome(rules.take(i), job)->Ok_0;
    let through = components_outcome(rules.take(i + 1), job)->Ok_0;
    assert(through[before.len() as int] == components_outcome(rules, job)->Ok_0[before.len() as int]);
}

/// A component rule whose condition does not hold changes nothing but
/// its own absence: the configuration gives what it would give without
/// that rule, be it components or an error.
pub proof fn lemma_unmatched_component_rule_skipped(
    rules: Seq<ComponentRuleView>,
    job: Map<Seq<char>, Seq<char>>,
    i: int,
)
    requires
        0 <= i < rules.len(),
        condition_outcome(rules[i].only_if, job) == Ok::<_, EvalErrorView>(false),
    ensures
        components_outcome(rules, job) == components_outcome(rules.remove(i), job),
    decreases rules.len(),
{
    if i == rules.len() - 1 {
        assert(rules.remove(i) == rules.drop_last());
    } else {
        assert(rules.remove(i).drop_last() == rules.drop_last().remove(i));
        assert(rules.remove(i).last() == rules.last());
        lemma_unmatched_component_rule_skipped(rules.drop_last(), job, i);
    }
}

/// A score rule whose condition does not hold changes nothing but its own
/// absence: the score rules give what they would give without it, and so
/// does the component rule that holds them.
pub proof fn lemma_unmatched_score_rule_skipped(
    rule: ComponentRuleView,
    job: Map<Seq<char>, Seq<char>>,
    i: int,
)
    requires
        0 <= i < rule.scores.len(),
        condition_outcome(rule.scores[i].only_if, job) == Ok::<_, EvalErrorView>(false),
    ensures
        scores_outcome(rule.scores, job) == scores_outcome(rule.scores.remove(i), job),
        component_outcome(rule, job) == component_outcome(
            ComponentRuleView { scores: rule.scores.remove(i), ..rule },
            job,
        ),
    decreases rule.scores.len(),
{
    let rules = rule.scores;
    if i == rules.len() - 1 {
        assert(rules.remove(i) == rules.drop_last());
    } else {
        assert(rules.remove(i).drop_last() == rules.drop_last().remove(i));
        assert(rules.remove(i).last() == rules.last());
        lemma_unmatched_score_rule_skipped(
            ComponentRuleView { scores: rules.drop_last(), ..rule },
            job,
            i,
        );
    }
}

/// Every component that a configuration gives is valid.
pub proof fn lemma_components_outcome_valid(
    rules: Seq<ComponentRuleView>,
    job: Map<Seq<char>, Seq<char>>,
)
    requires
        components_outcome(rules, job) is Ok,
    ensures
        forall|j: int|
            0 <= j < components_outcome(rules, job)->Ok_0.len() ==> crate::domain::valid_component(
                #[trigger] components_outcome(rules, job)->Ok_0[j],
            ),
    decreases rules.len(),
{
    if rules.len() > 0 {
        lemma_components_outcome_valid(rules.drop_last(), job);
        if component_outcome(rules.last(), job) matches Ok(Some(c)) {
            lemma_scores_outcome_valid(rules.last().scores, job);
        }
    }
}

/// Every score that a list of score rules gives is valid.
pub proof fn lemma_scores_outcome_valid(rules: Seq<ScoreRuleView>, job: Map<Seq<char>, Seq<char>>)
    requires
        scores_outcome(rules, job) is Ok,
    ensures
        forall|j: int|
            0 <= j < scores_outcome(rules, job)->Ok_0.len() ==> crate::domain::valid_score(
                #[trigger] scores_outcome(rules, job)->Ok_0[j],
            ),
    decreases rules.len(),
{
    if rules.len() > 0 {
        lemma_scores_outcome_valid(rules.drop_last(), job);
    }
}

} // verus!
