//! The parts of an accounting record: scores and components.

use crate::names::{valid_name, ValidName};
use vstd::prelude::*;

verus! {

/// The bit pattern of positive infinity in IEEE 754 binary64; every finite
/// number that is not negative has a smaller pattern.
pub const FIRST_NON_FINITE: u64 = 0x7FF0_0000_0000_0000;

/// The bit pattern of negative zero in IEEE 754 binary64.
pub const NEGATIVE_ZERO: u64 = 0x8000_0000_0000_0000;

/// A factor is kept as the bit pattern of an IEEE 754 binary64 number. It is
/// valid if that number is finite and not less than zero.
pub open spec fn valid_factor(bits: u64) -> bool {
    bits < FIRST_NON_FINITE || bits == NEGATIVE_ZERO
}

/// Decides [`valid_factor`].
pub fn is_valid_factor(bits: u64) -> (b: bool)
    ensures
        b == valid_factor(bits),
{
    bits < FIRST_NON_FINITE || bits == NEGATIVE_ZERO
}

/// What a score is: a name and a weighting factor.
pub struct ScoreView {
    pub name: Seq<char>,
    pub factor_bits: u64,
}

/// What a component is: a name, an amount and its scores in order.
pub struct ComponentView {
    pub name: Seq<char>,
    pub amount: u64,
    pub scores: Seq<ScoreView>,
}

/// A score with a valid name and a valid factor.
pub open spec fn valid_score(score: ScoreView) -> bool {
    valid_name(score.name) && valid_factor(score.factor_bits)
}

/// A component with a valid name and valid scores.
pub open spec fn valid_component(component: ComponentView) -> bool {
    &&& valid_name(component.name)
    &&& forall|i: int| 0 <= i < component.scores.len() ==> valid_score(#[trigger] component.scores[i])
}

/// Why a score could not be made.
#[derive(Debug)]
pub enum ScoreError {
    /// The name is not a valid name.
    InvalidName { raw: String },
    /// The factor is negative, infinite or not a number.
    InvalidFactor { factor_bits: u64 },
}

/// A named weighting factor attached to a component.
#[derive(Debug)]
pub struct Score {
    name: ValidName,
    factor_bits: u64,
}

impl View for Score {
    type V = ScoreView;

    closed spec fn view(&self) -> ScoreView {
        ScoreView { name: self.name@, factor_bits: self.factor_bits }
    }
}

impl Score {
    #[verifier::type_invariant]
    spec fn checked(self) -> bool {
        valid_factor(self.factor_bits)
    }

    /// A score called `name` with the factor whose bit pattern is
    /// `factor_bits`. The name is checked first, then the factor.
    pub fn new(name: String, factor_bits: u64) -> (r: Result<Score, ScoreError>)
        ensures
            match r {
                Ok(score) => valid_score(score@) && score@ == (ScoreView { name: name@, factor_bits }),
                Err(ScoreError::InvalidName { raw }) => !valid_name(name@) && raw@ == name@,
                Err(ScoreError::InvalidFactor { factor_bits: bits }) => valid_name(name@)
                    && !valid_factor(factor_bits) && bits == factor_bits,
            },
    {
        let raw = name.clone();
        match ValidName::parse(name) {
            None => Err(ScoreError::InvalidName { raw }),
            Some(name) => {
                if is_valid_factor(factor_bits) {
                    Ok(Score { name, factor_bits })
                } else {
                    Err(ScoreError::InvalidFactor { factor_bits })
                }
            },
        }
    }

    /// The score's name.
    pub fn name(&self) -> (r: &str)
        ensures
            r@ == self@.name,
            valid_score(self@),
    {
        proof {
            use_type_invariant(self);
        }
        self.name.as_str()
    }

    /// The bit pattern of the score's factor.
    pub fn factor_bits(&self) -> (r: u64)
        ensures
            r == self@.factor_bits,
            valid_factor(r),
    {
        proof {
            use_type_invariant(self);
        }
        self.factor_bits
    }
}

impl Clone for Score {
    fn clone(&self) -> (r: Self)
        ensures
            r@ == self@,
    {
        proof {
            use_type_invariant(self);
        }
        Score { name: self.name.clone(), factor_bits: self.factor_bits }
    }
}

/// The views of a list of scores, in the same order.
pub open spec fn score_views(scores: Seq<Score>) -> Seq<ScoreView> {
    scores.map_values(|s: Score| s@)
}

/// A copy of `scores`.
pub fn clone_scores(scores: &Vec<Score>) -> (r: Vec<Score>)
    ensures
        score_views(r@) == score_views(scores@),
{
    let mut out: Vec<Score> = Vec::new();
    let mut i: usize = 0;
    while i < scores.len()
        invariant
            i <= scores.len(),
            out.len() == i,
            score_views(out@) == score_views(scores@.take(i as int)),
        decreases scores.len() - i,
    {
        let ghost before = out@;
        let copy = scores[i].clone();
        out.push(copy);
        i += 1;
        assert(score_views(out@) =~= score_views(scores@.take(i as int))) by {
            assert forall|j: int| 0 <= j < i implies score_views(out@)[j] == score_views(
                scores@.take(i as int),
            )[j] by {
                if j < i - 1 {
                    assert(score_views(before)[j] == score_views(scores@.take(i - 1))[j]);
                }
            }
        }
    }
    assert(scores@.take(i as int) == scores@);
    out
}

/// A named, quantified resource of a job, with the scores that weigh it.
#[derive(Debug)]
pub struct Component {
    name: ValidName,
    amount: u64,
    scores: Vec<Score>,
}

impl View for Component {
    type V = ComponentView;

    closed spec fn view(&self) -> ComponentView {
        ComponentView { name: self.name@, amount: self.amount, scores: score_views(self.scores@) }
    }
}

impl Component {
    /// A component called `name`, if that is a valid name; otherwise
    /// nothing is made.
    pub fn new(name: String, amount: u64, scores: Vec<Score>) -> (r: Option<Component>)
        ensures
            r is Some <==> valid_name(name@),
            r matches Some(c) ==> c@ == (ComponentView {
                name: name@,
                amount,
                scores: score_views(scores@),
            }),
    {
        match ValidName::parse(name) {
            None => None,
            Some(name) => Some(Component { name, amount, scores }),
        }
    }

    /// The component's name.
    pub fn name(&self) -> (r: &str)
        ensures
            r@ == self@.name,
            valid_name(self@.name),
    {
        self.name.as_str()
    }

    /// How much of the resource the job used.
    pub fn amount(&self) -> (r: u64)
        ensures
            r == self@.amount,
    {
        self.amount
    }

    /// The component's scores, in order.
    pub fn scores(&self) -> (r: &Vec<Score>)
        ensures
            score_views(r@) == self@.scores,
    {
        &self.scores
    }
}

impl Clone for Component {
    fn clone(&self) -> (r: Self)
        ensures
            r@ == self@,
    {
        Component {
            name: self.name.clone(),
            amount: self.amount,
            scores: clone_scores(&self.scores),
        }
    }
}

/// The views of a list of components, in the same order.
pub open spec fn component_views(components: Seq<Component>) -> Seq<ComponentView> {
    components.map_values(|c: Component| c@)
}

/// A copy of `components`.
pub fn clone_components(components: &Vec<Component>) -> (r: Vec<Component>)
    ensures
        component_views(r@) == component_views(components@),
{
    let mut out: Vec<Component> = Vec::new();
    let mut i: usize = 0;
    while i < components.len()
        invariant
            i <= components.len(),
            out.len() == i,
            component_views(out@) == component_views(components@.take(i as int)),
        decreases components.len() - i,
    {
        let ghost before = out@;
        let copy = components[i].clone();
        out.push(copy);
        i += 1;
        assert(component_views(out@) =~= component_views(components@.take(i as int))) by {
            assert forall|j: int| 0 <= j < i implies component_views(out@)[j] == component_views(
                components@.take(i as int),
            )[j] by {
                if j < i - 1 {
                    assert(component_views(before)[j] == component_views(
                        components@.take(i - 1),
                    )[j]);
                }
            }
        }
    }
    assert(components@.take(i as int) == components@);
    out
}

} // verus!
