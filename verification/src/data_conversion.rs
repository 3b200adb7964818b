//! Splits the point sequence into the per-label series that the display
//! layer plots: one series of coordinate pairs for normal points and one
//! for anomalies, each in the collection's order.

use crate::data_definition::{DataLabel, DataPoint};
use vstd::prelude::*;

verus! {

/// The coordinate pairs of the points before index `n` whose label is
/// `label`, in order.
pub open spec fn series_upto(s: Seq<DataPoint>, label: DataLabel, n: int) -> Seq<(i64, i64)>
    decreases n,
{
    if n <= 0 {
        Seq::empty()
    } else {
        let rest = series_upto(s, label, n - 1);
        if s[n - 1].label == label {
            rest.push((s[n - 1].x, s[n - 1].y))
        } else {
            rest
        }
    }
}

/// The coordinate pairs of the points with label `label`, in order.
pub open spec fn series_of(s: Seq<DataPoint>, label: DataLabel) -> Seq<(i64, i64)> {
    series_upto(s, label, s.len() as int)
}

fn series_with_label(points: &[DataPoint], label: DataLabel) -> (r: Vec<(i64, i64)>)
    ensures
        r@ == series_of(points@, label),
{
    let mut r: Vec<(i64, i64)> = Vec::new();
    let mut i: usize = 0;
    while i < points.len()
        invariant
            i <= points@.len(),
            r@ == series_upto(points@, label, i as int),
        decreases points@.len() - i,
    {
        let p = points[i];
        if p.label == label {
            r.push((p.x, p.y));
        }
        i = i + 1;
    }
    r
}

/// The coordinate pairs of the normal points, in order.
pub fn array_of_normal(points: &[DataPoint]) -> (r: Vec<(i64, i64)>)
    ensures
        r@ == series_of(points@, DataLabel::Normal),
{
    series_with_label(points, DataLabel::Normal)
}

/// The coordinate pairs of the anomaly points, in order.
pub fn array_of_anom(points: &[DataPoint]) -> (r: Vec<(i64, i64)>)
    ensures
        r@ == series_of(points@, DataLabel::Anomaly),
{
    series_with_label(points, DataLabel::Anomaly)
}

} // verus!
