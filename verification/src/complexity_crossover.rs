//! Regime 3 tiers: the declared node counts, hardware context labels, and
//! timing protocol of each tier of the task-complexity crossover matrix.
use vstd::prelude::*;
use crate::timing_harness::{N_WARM, N_TIMED};
use crate::cache_latency_model::{CACHE_SWEEP_WARM, CACHE_SWEEP_TIMED};
use crate::binary_baselines::{BinaryAlgo, ALL_ALGOS};

verus! {

/// The declared tiers of the crossover matrix.
#[derive(Debug, Clone, Copy, PartialEq, Eq, Structural)]
pub enum Tier {
    Small,
    Medium,
    Large,
    Xlarge,
    Xxlarge,
}

/// Every declared tier, smallest first.
pub const TIERS: [Tier; 5] = [Tier::Small, Tier::Medium, Tier::Large, Tier::Xlarge, Tier::Xxlarge];

impl Tier {
    /// Declared node count of each tier.
    pub open spec fn n_nodes_spec(self) -> usize {
        match self {
            Tier::Small => 64,
            Tier::Medium => 1_024,
            Tier::Large => 65_536,
            Tier::Xlarge => 262_144,
            Tier::Xxlarge => 2_097_152,
        }
    }

    pub open spec fn label_spec(self) -> Seq<char> {
        match self {
            Tier::Small => "SMALL"@,
            Tier::Medium => "MEDIUM"@,
            Tier::Large => "LARGE"@,
            Tier::Xlarge => "XLARGE"@,
            Tier::Xxlarge => "XXLARGE"@,
        }
    }

    pub open spec fn hardware_context_spec(self) -> Seq<char> {
        match self {
            Tier::Small => "L1d  0.56 ns/access"@,
            Tier::Medium => "L1d  0.56 ns/access"@,
            Tier::Large => "L2-sat 0.70 ns/access"@,
            Tier::Xlarge => "L3-entry 0.88 ns/access"@,
            Tier::Xxlarge => "L3-step  3.38 ns/access"@,
        }
    }

    /// Only the two smallest tiers measure the quadratic all-pairs baseline.
    pub open spec fn includes_all_pairs_spec(self) -> bool {
        self is Small || self is Medium
    }

    /// The two largest tiers use the lighter cache-sweep timing protocol.
    pub open spec fn uses_light_protocol(self) -> bool {
        self is Xlarge || self is Xxlarge
    }

    pub fn n_nodes(self) -> (r: usize)
        ensures
            r == self.n_nodes_spec(),
    {
        match self {
            Tier::Small => 64,
            Tier::Medium => 1_024,
            Tier::Large => 65_536,
            Tier::Xlarge => 262_144,
            Tier::Xxlarge => 2_097_152,
        }
    }

    pub fn label(self) -> (r: &'static str)
        ensures
            r@ == self.label_spec(),
    {
        match self {
            Tier::Small => "SMALL",
            Tier::Medium => "MEDIUM",
            Tier::Large => "LARGE",
            Tier::Xlarge => "XLARGE",
            Tier::Xxlarge => "XXLARGE",
        }
    }

    /// Hardware context for this tier from the declared cache-latency curve.
    pub fn hardware_context(self) -> (r: &'static str)
        ensures
            r@ == self.hardware_context_spec(),
    {
        match self {
            Tier::Small => "L1d  0.56 ns/access",
            Tier::Medium => "L1d  0.56 ns/access",
            Tier::Large => "L2-sat 0.70 ns/access",
            Tier::Xlarge => "L3-entry 0.88 ns/access",
            Tier::Xxlarge => "L3-step  3.38 ns/access",
        }
    }

    /// Whether the quadratic all-pairs baseline is measured at this tier:
    /// only at the two smallest tiers.
    pub fn includes_all_pairs(self) -> (r: bool)
        ensures
            r == self.includes_all_pairs_spec(),
    {
        matches!(self, Tier::Small | Tier::Medium)
    }

    /// Whether this tier runs the lighter timing protocol.
    pub fn light_protocol(self) -> (r: bool)
        ensures
            r == self.uses_light_protocol(),
    {
        matches!(self, Tier::Xlarge | Tier::Xxlarge)
    }

    /// Warm passes of this tier's timing protocol.
    pub fn warm_passes(self) -> (r: usize)
        ensures
            r == (if self.uses_light_protocol() { CACHE_SWEEP_WARM } else { N_WARM }),
    {
        match self {
            Tier::Xlarge | Tier::Xxlarge => CACHE_SWEEP_WARM,
            _ => N_WARM,
        }
    }

    /// Timed passes of this tier's timing protocol.
    pub fn timed_passes(self) -> (r: usize)
        ensures
            r == (if self.uses_light_protocol() { CACHE_SWEEP_TIMED } else { N_TIMED }),
    {
        match self {
            Tier::Xlarge | Tier::Xxlarge => CACHE_SWEEP_TIMED,
            _ => N_TIMED,
        }
    }
}

/// Every tier has a non-empty label and hardware context.
pub proof fn lemma_tier_labels_nonempty(tier: Tier)
    ensures
        tier.label_spec().len() > 0,
        tier.hardware_context_spec().len() > 0,
{
    reveal_strlit("SMALL");
    reveal_strlit("MEDIUM");
    reveal_strlit("LARGE");
    reveal_strlit("XLARGE");
    reveal_strlit("XXLARGE");
    reveal_strlit("L1d  0.56 ns/access");
    reveal_strlit("L2-sat 0.70 ns/access");
    reveal_strlit("L3-entry 0.88 ns/access");
    reveal_strlit("L3-step  3.38 ns/access");
}

/// Every declared baseline in reporting order.
pub open spec fn all_algos_seq() -> Seq<BinaryAlgo> {
    seq![
        BinaryAlgo::AllPairsDiff,
        BinaryAlgo::LinearScanDiff,
        BinaryAlgo::WindowedDiff,
        BinaryAlgo::PrefixSum,
        BinaryAlgo::SortThenScan,
        BinaryAlgo::ScrambledAccess,
        BinaryAlgo::BranchyDataDependent,
    ]
}

/// The baselines measured at `tier`, in reporting order: all of them,
/// except the quadratic all-pairs baseline where the tier excludes it.
pub open spec fn algorithms_at_tier_spec(tier: Tier) -> Seq<BinaryAlgo> {
    all_algos_seq().filter(|a: BinaryAlgo| tier.includes_all_pairs_spec() || a != BinaryAlgo::AllPairsDiff)
}

/// The baselines measured at `tier`, in reporting order.
pub fn algorithms_at_tier(tier: Tier) -> (r: Vec<BinaryAlgo>)
    ensures
        r@ == algorithms_at_tier_spec(tier),
        r.len() == (if tier.includes_all_pairs_spec() { 7nat } else { 6nat }),
{
    let include_all_pairs = tier.includes_all_pairs();
    let mut r: Vec<BinaryAlgo> = Vec::new();
    let mut i: usize = 0;
    let ghost keep = |a: BinaryAlgo| tier.includes_all_pairs_spec() || a != BinaryAlgo::AllPairsDiff;
    assert(ALL_ALGOS@ == all_algos_seq());
    while i < 7
        invariant
            i <= 7,
            include_all_pairs == tier.includes_all_pairs_spec(),
            ALL_ALGOS@ == all_algos_seq(),
            keep == (|a: BinaryAlgo| tier.includes_all_pairs_spec() || a != BinaryAlgo::AllPairsDiff),
            r@ == all_algos_seq().take(i as int).filter(keep),
        decreases 7 - i,
    {
        let algo = ALL_ALGOS[i];
        proof {
            reveal_with_fuel(Seq::filter, 1);
            assert(all_algos_seq().take(i + 1).drop_last() =~= all_algos_seq().take(i as int));
        }
        if include_all_pairs || algo != BinaryAlgo::AllPairsDiff {
            r.push(algo);
        }
        i = i + 1;
    }
    proof {
        assert(all_algos_seq().take(7) =~= all_algos_seq());
        reveal_with_fuel(Seq::filter, 8);
    }
    r
}

/// Tiers are listed smallest first with strictly growing node counts; the
/// quadratic all-pairs baseline is measured exactly at the tiers of at most
/// 1,024 nodes, and the lighter protocol is used exactly at the tiers above
/// 65,536 nodes.
pub proof fn lemma_tiers_ordered_by_size(i: int, j: int, tier: Tier)
    requires
        0 <= i < j < 5,
    ensures
        TIERS@[i].n_nodes_spec() < TIERS@[j].n_nodes_spec(),
        tier.includes_all_pairs_spec() <==> tier.n_nodes_spec() <= 1_024,
        tier.uses_light_protocol() <==> tier.n_nodes_spec() > 65_536,
{
}

} // verus!
