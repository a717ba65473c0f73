//! The five model specifications of the Johansen cointegration test.

use vstd::prelude::*;
use vstd::string::*;

verus! {

/// A model of the Johansen cointegration test, by what it assumes of the
/// intercept and the trend of the process.
#[derive(Debug, Clone, Copy, PartialEq, Eq, Structural)]
pub enum JohansenModel {
    /// Model 0: no intercept, no trend.
    NoInterceptNoTrend,
    /// Model 1: an intercept, inside the cointegration relation; no trend.
    InterceptNoTrendWithInterceptInCoint,
    /// Model 2: an intercept that cointegration does not fully explain; no
    /// trend.
    InterceptNoTrendUnrestrictedIntercept,
    /// Model 3: an unrestricted intercept, and a trend inside the
    /// cointegration relation.
    InterceptTrendUnrestrictedInterceptRestrictedTrend,
    /// Model 4: an intercept and a trend, neither fully explained by
    /// cointegration.
    InterceptTrendUnrestrictedBoth,
}

impl JohansenModel {
    /// The number of the model, from 0 to 4.
    pub open spec fn spec_to_number(self) -> u8 {
        match self {
            JohansenModel::NoInterceptNoTrend => 0,
            JohansenModel::InterceptNoTrendWithInterceptInCoint => 1,
            JohansenModel::InterceptNoTrendUnrestrictedIntercept => 2,
            JohansenModel::InterceptTrendUnrestrictedInterceptRestrictedTrend => 3,
            JohansenModel::InterceptTrendUnrestrictedBoth => 4,
        }
    }

    /// The model with the number `n`, where there is one.
    pub open spec fn spec_from_number(n: u8) -> Option<JohansenModel> {
        if n == 0 {
            Some(JohansenModel::NoInterceptNoTrend)
        } else if n == 1 {
            Some(JohansenModel::InterceptNoTrendWithInterceptInCoint)
        } else if n == 2 {
            Some(JohansenModel::InterceptNoTrendUnrestrictedIntercept)
        } else if n == 3 {
            Some(JohansenModel::InterceptTrendUnrestrictedInterceptRestrictedTrend)
        } else if n == 4 {
            Some(JohansenModel::InterceptTrendUnrestrictedBoth)
        } else {
            None
        }
    }

    /// The description of the model in words.
    pub open spec fn spec_description(self) -> Seq<char> {
        match self {
            JohansenModel::NoInterceptNoTrend => "No intercept, no trend"@,
            JohansenModel::InterceptNoTrendWithInterceptInCoint => "Intercept, no trend, intercept in cointegration"@,
            JohansenModel::InterceptNoTrendUnrestrictedIntercept => "Intercept, no trend, intercept not fully explained by cointegration"@,
            JohansenModel::InterceptTrendUnrestrictedInterceptRestrictedTrend => "Intercept, trend, trend in cointegration"@,
            JohansenModel::InterceptTrendUnrestrictedBoth => "Intercept, trend, intercept and trend not fully explained by cointegration"@,
        }
    }

    /// The digit of the model's number.
    pub open spec fn spec_digit(self) -> Seq<char> {
        match self {
            JohansenModel::NoInterceptNoTrend => "0"@,
            JohansenModel::InterceptNoTrendWithInterceptInCoint => "1"@,
            JohansenModel::InterceptNoTrendUnrestrictedIntercept => "2"@,
            JohansenModel::InterceptTrendUnrestrictedInterceptRestrictedTrend => "3"@,
            JohansenModel::InterceptTrendUnrestrictedBoth => "4"@,
        }
    }

    /// The model as a line of text: its number, then its description.
    pub open spec fn spec_to_string(self) -> Seq<char> {
        "Model "@ + self.spec_digit() + ": "@ + self.spec_description()
    }

    /// The number of eigenvalues that a simulation of dimension `dim` yields
    /// under this model: one more than `dim` where the intercept or the trend
    /// lies inside the cointegration relation.
    pub open spec fn spec_eigenvalues_per_run(self, dim: nat) -> nat {
        if self.spec_intercept_in_cointegration() || self.spec_trend_in_cointegration() {
            dim + 1
        } else {
            dim
        }
    }

    /// Whether cointegration fully explains the intercept.
    pub open spec fn spec_intercept_in_cointegration(self) -> bool {
        self == JohansenModel::InterceptNoTrendWithInterceptInCoint
    }

    /// Whether cointegration fully explains the trend.
    pub open spec fn spec_trend_in_cointegration(self) -> bool {
        self == JohansenModel::InterceptTrendUnrestrictedInterceptRestrictedTrend
    }

    /// The number of the model, from 0 to 4.
    pub fn to_number(self) -> (n: u8)
        ensures
            n == self.spec_to_number(),
            n <= 4,
    {
        match self {
            JohansenModel::NoInterceptNoTrend => 0,
            JohansenModel::InterceptNoTrendWithInterceptInCoint => 1,
            JohansenModel::InterceptNoTrendUnrestrictedIntercept => 2,
            JohansenModel::InterceptTrendUnrestrictedInterceptRestrictedTrend => 3,
            JohansenModel::InterceptTrendUnrestrictedBoth => 4,
        }
    }

    /// The model with the number `n`; `None` for a number above 4.
    pub fn from_number(n: u8) -> (model: Option<Self>)
        ensures
            model == Self::spec_from_number(n),
            n <= 4 <==> model is Some,
            model is Some ==> model->Some_0.spec_to_number() == n,
    {
        match n {
            0 => Some(JohansenModel::NoInterceptNoTrend),
            1 => Some(JohansenModel::InterceptNoTrendWithInterceptInCoint),
            2 => Some(JohansenModel::InterceptNoTrendUnrestrictedIntercept),
            3 => Some(JohansenModel::InterceptTrendUnrestrictedInterceptRestrictedTrend),
            4 => Some(JohansenModel::InterceptTrendUnrestrictedBoth),
            _ => None,
        }
    }

    /// The description of the model in words.
    pub fn description(&self) -> (text: &'static str)
        ensures
            text@ == self.spec_description(),
    {
        match self {
            JohansenModel::NoInterceptNoTrend => "No intercept, no trend",
            JohansenModel::InterceptNoTrendWithInterceptInCoint => "Intercept, no trend, intercept in cointegration",
            JohansenModel::InterceptNoTrendUnrestrictedIntercept => "Intercept, no trend, intercept not fully explained by cointegration",
            JohansenModel::InterceptTrendUnrestrictedInterceptRestrictedTrend => "Intercept, trend, trend in cointegration",
            JohansenModel::InterceptTrendUnrestrictedBoth => "Intercept, trend, intercept and trend not fully explained by cointegration",
        }
    }

    /// Whether the model has an intercept: every model but model 0.
    pub fn has_intercept(&self) -> (yes: bool)
        ensures
            yes == (*self != JohansenModel::NoInterceptNoTrend),
    {
        match self {
            JohansenModel::NoInterceptNoTrend => false,
            JohansenModel::InterceptNoTrendWithInterceptInCoint
            | JohansenModel::InterceptNoTrendUnrestrictedIntercept
            | JohansenModel::InterceptTrendUnrestrictedInterceptRestrictedTrend
            | JohansenModel::InterceptTrendUnrestrictedBoth => true,
        }
    }

    /// Whether the model has a trend: models 3 and 4.
    pub fn has_trend(&self) -> (yes: bool)
        ensures
            yes == (self.spec_to_number() >= 3),
    {
        match self {
            JohansenModel::NoInterceptNoTrend
            | JohansenModel::InterceptNoTrendWithInterceptInCoint
            | JohansenModel::InterceptNoTrendUnrestrictedIntercept => false,
            JohansenModel::InterceptTrendUnrestrictedInterceptRestrictedTrend
            | JohansenModel::InterceptTrendUnrestrictedBoth => true,
        }
    }

    /// Whether cointegration fully explains the intercept: model 1 only.
    pub fn intercept_fully_explained_by_cointegration(&self) -> (yes: bool)
        ensures
            yes == self.spec_intercept_in_cointegration(),
    {
        match self {
            JohansenModel::InterceptNoTrendWithInterceptInCoint => true,
            JohansenModel::NoInterceptNoTrend
            | JohansenModel::InterceptNoTrendUnrestrictedIntercept
            | JohansenModel::InterceptTrendUnrestrictedInterceptRestrictedTrend
            | JohansenModel::InterceptTrendUnrestrictedBoth => false,
        }
    }

    /// Whether cointegration fully explains the trend: model 3 only.
    pub fn trend_fully_explained_by_cointegration(&self) -> (yes: bool)
        ensures
            yes == self.spec_trend_in_cointegration(),
    {
        match self {
            JohansenModel::InterceptTrendUnrestrictedInterceptRestrictedTrend => true,
            JohansenModel::NoInterceptNoTrend
            | JohansenModel::InterceptNoTrendWithInterceptInCoint
            | JohansenModel::InterceptNoTrendUnrestrictedIntercept
            | JohansenModel::InterceptTrendUnrestrictedBoth => false,
        }
    }

    /// The five models, by number.
    pub fn all_models() -> (models: [JohansenModel; 5])
        ensures
            forall|n: u8| 0 <= n < 5 ==> Some(#[trigger] models[n as int]) == Self::spec_from_number(n),
    {
        [
            JohansenModel::NoInterceptNoTrend,
            JohansenModel::InterceptNoTrendWithInterceptInCoint,
            JohansenModel::InterceptNoTrendUnrestrictedIntercept,
            JohansenModel::InterceptTrendUnrestrictedInterceptRestrictedTrend,
            JohansenModel::InterceptTrendUnrestrictedBoth,
        ]
    }

    /// The digit of the model's number.
    pub fn digit(self) -> (text: &'static str)
        ensures
            text@ == self.spec_digit(),
    {
        match self {
            JohansenModel::NoInterceptNoTrend => "0",
            JohansenModel::InterceptNoTrendWithInterceptInCoint => "1",
            JohansenModel::InterceptNoTrendUnrestrictedIntercept => "2",
            JohansenModel::InterceptTrendUnrestrictedInterceptRestrictedTrend => "3",
            JohansenModel::InterceptTrendUnrestrictedBoth => "4",
        }
    }

    /// The model as a line of text: `Model`, its number, a colon and its
    /// description.
    pub fn to_string(&self) -> (text: String)
        ensures
            text@ == self.spec_to_string(),
    {
        let mut text = String::from_str("Model ");
        text.append(self.digit());
        text.append(": ");
        text.append(self.description());
        text
    }
}

impl Default for JohansenModel {
    /// Model 2, the one most used.
    fn default() -> (model: Self)
        ensures
            model == JohansenModel::InterceptNoTrendUnrestrictedIntercept,
    {
        JohansenModel::InterceptNoTrendUnrestrictedIntercept
    }
}

/// A model and its number determine each other.
pub proof fn lemma_model_number_round_trip(model: JohansenModel)
    ensures
        JohansenModel::spec_from_number(model.spec_to_number()) == Some(model),
{
}

} // verus!
