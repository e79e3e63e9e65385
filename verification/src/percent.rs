//! Percentages as counters report them.
use vstd::prelude::*;

verus! {

/// A percentage as a counter reports it, before it is rounded for display.
///
/// Counters report fractions and several processes share one engine, so readings are added up
/// first and rounded once.
pub trait Utilization: Copy {
    /// Whether the reading is an amount at all: finite and not negative.
    spec fn valid(self) -> bool;

    /// The amount that adds nothing.
    spec fn nothing() -> Self;

    /// The sum of two amounts, where it can be represented.
    spec fn total(self, other: Self) -> Option<Self>;

    /// The whole percentage to display, at most one hundred.
    spec fn displayed(self) -> u8;

    fn is_valid(&self) -> (valid: bool)
        ensures
            valid == self.valid(),
    ;

    fn zero() -> (zero: Self)
        ensures
            zero == Self::nothing(),
    ;

    fn plus(&self, other: &Self) -> (sum: Option<Self>)
        ensures
            sum == self.total(*other),
    ;

    fn percent(&self) -> (percent: u8)
        ensures
            percent == self.displayed(),
            percent <= 100,
    ;
}

/// A percentage in hundredths.
#[derive(Clone, Copy, Debug, PartialEq, Eq, Structural)]
pub struct HundredthPercent(pub u64);

impl Utilization for HundredthPercent {
    open spec fn valid(self) -> bool {
        true
    }

    open spec fn nothing() -> Self {
        HundredthPercent(0)
    }

    open spec fn total(self, other: Self) -> Option<Self> {
        if self.0 + other.0 <= u64::MAX {
            Some(HundredthPercent((self.0 + other.0) as u64))
        } else {
            None
        }
    }

    open spec fn displayed(self) -> u8 {
        if self.0 >= 10000 {
            100
        } else {
            ((self.0 + 50) / 100) as u8
        }
    }

    fn is_valid(&self) -> (valid: bool) {
        true
    }

    fn zero() -> (zero: Self) {
        HundredthPercent(0)
    }

    fn plus(&self, other: &Self) -> (sum: Option<Self>) {
        match self.0.checked_add(other.0) {
            Some(sum) => Some(HundredthPercent(sum)),
            None => None,
        }
    }

    fn percent(&self) -> (percent: u8) {
        if self.0 >= 10000 {
            100
        } else {
            ((self.0 + 50) / 100) as u8
        }
    }
}

} // verus!
