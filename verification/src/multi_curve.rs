//! Multi-curve (OIS-discounted) curve sets.
//!
//! In the post-2008 framework the **discount** and **forward-projection**
//! roles of the yield curve are separated: cash flows are discounted on the
//! OIS curve while floating-leg forwards are projected from one
//! tenor-specific projection curve per fixing tenor (1M, 3M, 6M, ...).
//!
//! [`MultiCurve`] holds one discount curve and the projection curves keyed by
//! their literal [`Tenor`]; [`MultiCurveBootstrap`] holds the settings shared
//! by the OIS and projection bootstraps. Both are generic in the curve and
//! solver-configuration representations, which carry floating-point data.

use vstd::prelude::*;

use crate::types::{Date, Daycount, Tenor};

verus! {

/// Settings of a sequential OIS-discount + tenor-projection bootstrap: the
/// reference date and day count shared by every curve, and the solver
/// configuration `C`.
#[derive(Debug, Clone, Copy, PartialEq)]
pub struct MultiCurveBootstrap<C> {
    /// Curve anchor / reference date — shared between the OIS and all
    /// projection curves.
    pub reference_date: Date,
    /// Day-count convention for the OIS- and projection-curve `t`-axes.
    pub daycount: Daycount,
    /// Solver configuration shared by the OIS bootstrap and the projection
    /// bootstraps.
    pub config: C,
}

impl<C: Default> MultiCurveBootstrap<C> {
    /// Constructs a multi-curve bootstrap engine with the default solver
    /// configuration.
    pub fn new(reference_date: Date, daycount: Daycount) -> (r: Self)
        ensures
            r.reference_date == reference_date,
            r.daycount == daycount,
            call_ensures(C::default, (), r.config),
    {
        Self { reference_date, daycount, config: C::default() }
    }
}

impl<C> MultiCurveBootstrap<C> {
    /// Returns the engine with the supplied configuration; the reference date
    /// and day count are kept.
    pub fn with_config(self, config: C) -> (r: Self)
        ensures
            r.reference_date == self.reference_date,
            r.daycount == self.daycount,
            r.config == config,
    {
        Self { reference_date: self.reference_date, daycount: self.daycount, config }
    }
}

/// A multi-curve set: one OIS discount curve plus one projection curve per
/// tenor.
#[derive(Debug, Clone)]
pub struct MultiCurve<C> {
    /// OIS discount curve — discounts every cash flow.
    pub discount: C,
    /// Projection curves keyed by tenor (3M, 6M, ...), in the order in which
    /// they were supplied.
    pub projection: Vec<(Tenor, C)>,
}

impl<C> MultiCurve<C> {
    /// Returns the OIS discount curve.
    pub fn discount_curve(&self) -> (r: &C)
        ensures
            *r == self.discount,
    {
        &self.discount
    }

    /// Returns the first projection curve keyed by `tenor`, or `None` if no
    /// projection curve was bootstrapped for that tenor.
    ///
    /// Equality is on the literal `Tenor` value — `Tenor::new(3,
    /// TenorUnit::Months)` and `Tenor::new(90, TenorUnit::Days)` are distinct
    /// keys.
    pub fn projection_curve(&self, tenor: Tenor) -> (r: Option<&C>)
        ensures
            match r {
                Some(c) => exists|i: int|
                    0 <= i < self.projection@.len() && self.projection@[i].0 == tenor && (forall|
                        j: int,
                    | 0 <= j < i ==> self.projection@[j].0 != tenor) && *c
                        == self.projection@[i].1,
                None => forall|i: int|
                    0 <= i < self.projection@.len() ==> self.projection@[i].0 != tenor,
            },
    {
        let mut i: usize = 0;
        while i < self.projection.len()
            invariant
                0 <= i <= self.projection@.len(),
                forall|j: int| 0 <= j < i ==> self.projection@[j].0 != tenor,
            decreases self.projection@.len() - i,
        {
            if self.projection[i].0 == tenor {
                return Some(&self.projection[i].1);
            }
            i += 1;
        }
        None
    }
}

} // verus!
