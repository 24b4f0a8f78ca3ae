//! The critical value of a confidence interval, looked up in fixed tables.
//!
//! Two tables are kept, one for samples of more than thirty items and a
//! coarser one for the others. Each has a row for each band of confidence
//! levels. The values are approximations by design and are given in
//! thousandths, so that they can be held exactly.

use vstd::prelude::*;

verus! {

/// The band that a confidence level falls in.
#[derive(Clone, Copy, Debug, PartialEq, Eq, Structural)]
pub enum ConfidenceBand {
    /// The level is at least 0.99.
    AtLeast99,
    /// The level is at least 0.95 and below 0.99.
    AtLeast95,
    /// The level is at least 0.90 and below 0.95.
    AtLeast90,
    /// Any other level.
    Other,
}

/// The largest sample for which the coarser table is used.
pub const SMALL_SAMPLE_MAX: usize = 30;

/// The critical value for a sample size and a band, in thousandths.
pub open spec fn critical_thousandths_of(sample_size: int, band: ConfidenceBand) -> int {
    if sample_size > SMALL_SAMPLE_MAX {
        match band {
            ConfidenceBand::AtLeast99 => 2576,
            ConfidenceBand::AtLeast95 => 1960,
            ConfidenceBand::AtLeast90 => 1645,
            ConfidenceBand::Other => 1960,
        }
    } else {
        match band {
            ConfidenceBand::AtLeast99 => 3000,
            ConfidenceBand::AtLeast95 => 2500,
            ConfidenceBand::AtLeast90 => 2000,
            ConfidenceBand::Other => 2500,
        }
    }
}

/// Looks up the critical value for a sample size and a band, in thousandths.
/// There is none for a sample of fewer than two items: such a sample has no
/// interval but the point zero.
pub fn critical_thousandths(sample_size: usize, band: ConfidenceBand) -> (value: Option<u32>)
    ensures
        value is None <==> sample_size < 2,
        value matches Some(v) ==> v == critical_thousandths_of(sample_size as int, band),
{
    if sample_size < 2 {
        return None;
    }
    let value: u32 = if sample_size > SMALL_SAMPLE_MAX {
        match band {
            ConfidenceBand::AtLeast99 => 2576,
            ConfidenceBand::AtLeast95 => 1960,
            ConfidenceBand::AtLeast90 => 1645,
            ConfidenceBand::Other => 1960,
        }
    } else {
        match band {
            ConfidenceBand::AtLeast99 => 3000,
            ConfidenceBand::AtLeast95 => 2500,
            ConfidenceBand::AtLeast90 => 2000,
            ConfidenceBand::Other => 2500,
        }
    };
    Some(value)
}

/// A level outside the three named bands gets the value of the 0.95 band,
/// and within one table a higher band never gets a lower value.
pub proof fn lemma_critical_values(sample_size: int)
    ensures
        critical_thousandths_of(sample_size, ConfidenceBand::Other) == critical_thousandths_of(
            sample_size,
            ConfidenceBand::AtLeast95,
        ),
        critical_thousandths_of(sample_size, ConfidenceBand::AtLeast90) <= critical_thousandths_of(
            sample_size,
            ConfidenceBand::AtLeast95,
        ) <= critical_thousandths_of(sample_size, ConfidenceBand::AtLeast99),
{
}

} // verus!
