use vstd::prelude::*;

verus! {

/// Identifier of a belief node.
#[derive(Debug, Clone, Copy, PartialEq, Eq, PartialOrd, Ord, Hash, Structural)]
pub struct BeliefId(pub u64);

/// Kinds of risk assessed by the inference layer.
#[derive(Debug, Clone, Copy, PartialEq, Eq, Hash, Structural)]
pub enum RiskType {
    ZoonoticSpillover,
    TradeCheating,
    EnforcementFailure,
    CollectiveFracture,
    FamineCrisis,
}

/// The snake-case label of each risk kind.
pub open spec fn risk_label(r: RiskType) -> Seq<char> {
    match r {
        RiskType::ZoonoticSpillover => "zoonotic_spillover"@,
        RiskType::TradeCheating => "trade_cheating"@,
        RiskType::EnforcementFailure => "enforcement_failure"@,
        RiskType::CollectiveFracture => "collective_fracture"@,
        RiskType::FamineCrisis => "famine_crisis"@,
    }
}

impl RiskType {
    /// The snake-case label of this risk kind.
    pub fn as_str(&self) -> (s: &'static str)
        ensures
            s@ == risk_label(*self),
    {
        match self {
            RiskType::ZoonoticSpillover => "zoonotic_spillover",
            RiskType::TradeCheating => "trade_cheating",
            RiskType::EnforcementFailure => "enforcement_failure",
            RiskType::CollectiveFracture => "collective_fracture",
            RiskType::FamineCrisis => "famine_crisis",
        }
    }
}

} // verus!
