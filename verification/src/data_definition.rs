//! The point collection: labeled 2-D points with rounding on entry, a
//! nearest-point delete, a memoized bounding box, and an undo/redo history.
//!
//! A coordinate is a fixed-point `i64` counting units of 10^-10: the value
//! `1.23` is stored as `12_300_000_000` (`COORD_SCALE` units is `1.0`).
//! Coordinates are kept within `MAX_COORD` units so that squared distances
//! and margins can be computed exactly.

use crate::undo_manager::{
    lemma_redo_then_undo, lemma_undo_chain_ok_trim, lemma_undo_then_redo, records_mutation,
    redo_applicable, redo_apply, redo_chain_ok, redone_form, trim_front, undo_applicable,
    undo_apply, undo_chain_ok, undone_form, AddEventData, ClearEventData, DeleteEventData, Event,
    EventView, UndoManager, DEFAULT_MAX_HISTORY,
};
use vstd::arithmetic::div_mod::{
    lemma_div_is_ordered, lemma_div_pos_is_pos, lemma_fundamental_div_mod,
    lemma_fundamental_div_mod_converse, lemma_mod_division_less_than_divisor,
    lemma_mod_multiples_basic,
};
use vstd::arithmetic::mul::{lemma_mul_inequality, lemma_mul_nonnegative};
use vstd::prelude::*;

verus! {

/// Number of fixed-point units in one whole coordinate unit.
pub const COORD_SCALE: i64 = 10_000_000_000;

/// Largest coordinate magnitude the collection accepts, in fixed-point units.
pub const MAX_COORD: i64 = 100_000_000_000_000_000;

/// Rounding to this many decimal places or more leaves a coordinate as it is.
pub const MAX_DECIMAL_PLACES: u8 = 10;

/// Decimal places first used when rounding is switched on.
pub const DEFAULT_DECIMAL_PLACES_FOR_ROUNDING: u8 = 0;

/// Denominator of the bounding-box margin: one twentieth of the range is
/// added on each side, widening every axis range by ten percent in all.
pub const MARGIN_DIVISOR: i64 = 20;

#[derive(Clone, Copy, PartialEq, Eq, Structural, Debug)]
pub enum DataLabel {
    Normal,
    Anomaly,
}

impl DataLabel {
    /// Returns `true` if the data label is [`Normal`].
    ///
    /// [`Normal`]: DataLabel::Normal
    #[must_use]
    pub fn is_normal(&self) -> (r: bool)
        ensures
            r == (*self == DataLabel::Normal),
    {
        matches!(self, DataLabel::Normal)
    }

    /// Returns `true` if the data label is [`Anomaly`].
    ///
    /// [`Anomaly`]: DataLabel::Anomaly
    #[must_use]
    pub fn is_anomaly(&self) -> (r: bool)
        ensures
            r == (*self == DataLabel::Anomaly),
    {
        matches!(self, DataLabel::Anomaly)
    }
}

/// One labeled point, with fixed-point coordinates.
#[derive(Clone, Copy, PartialEq, Eq, Structural, Debug)]
pub struct DataPoint {
    pub x: i64,
    pub y: i64,
    pub label: DataLabel,
}

/// An axis-aligned rectangle, as the two corner coordinates per axis.
#[derive(Clone, Copy, PartialEq, Eq, Structural, Debug)]
pub struct MinMaxPair {
    pub min_x: i64,
    pub min_y: i64,
    pub max_x: i64,
    pub max_y: i64,
}

pub open spec fn coord_ok(c: int) -> bool {
    -(MAX_COORD as int) <= c <= MAX_COORD as int
}

pub open spec fn point_ok(p: DataPoint) -> bool {
    coord_ok(p.x as int) && coord_ok(p.y as int)
}

pub open spec fn points_ok(s: Seq<DataPoint>) -> bool {
    forall|i: int| 0 <= i < s.len() ==> point_ok(#[trigger] s[i])
}

/// Ten to the `k`-th power.
pub open spec fn pow10_spec(k: nat) -> int
    decreases k,
{
    if k == 0 {
        1
    } else {
        10 * pow10_spec((k - 1) as nat)
    }
}

/// The multiple of `q` nearest to `n`, halves rounded away from zero,
/// matching how floating-point `round` behaves on the halfway cases.
pub open spec fn round_to_multiple(n: int, q: int) -> int {
    if n >= 0 {
        ((n + q / 2) / q) * q
    } else {
        -(((-n + q / 2) / q) * q)
    }
}

/// A coordinate rounded to `places` decimal places.
pub open spec fn round_coord(n: int, places: u8) -> int {
    if places >= MAX_DECIMAL_PLACES {
        n
    } else {
        round_to_multiple(n, pow10_spec((MAX_DECIMAL_PLACES - places) as nat))
    }
}

/// The point stored by an accepted add: the raw coordinate, rounded when
/// rounding is enabled, with the label supplied by the caller.
pub open spec fn applied_point(x: int, y: int, label: DataLabel, rounding: Option<u8>) -> DataPoint {
    match rounding {
        Some(places) => (DataPoint {
            x: round_coord(x, places) as i64,
            y: round_coord(y, places) as i64,
            label,
        }),
        None => (DataPoint { x: x as i64, y: y as i64, label }),
    }
}

/// Squared Euclidean distance between two coordinates. Square roots are
/// monotone, so comparing squared distances orders points by distance.
pub open spec fn dist_sq(ax: int, ay: int, bx: int, by: int) -> int {
    (ax - bx) * (ax - bx) + (ay - by) * (ay - by)
}

pub open spec fn label_matches(p: DataPoint, label: Option<DataLabel>) -> bool {
    match label {
        None => true,
        Some(l) => p.label == l,
    }
}

/// Index `i` names the point `delete` picks for the coordinate `(cx, cy)`:
/// its label matches, no matching point lies strictly nearer, and every
/// matching point before it lies strictly farther (ties keep the first).
pub open spec fn is_closest_match(
    s: Seq<DataPoint>,
    cx: int,
    cy: int,
    label: Option<DataLabel>,
    i: int,
) -> bool {
    &&& 0 <= i < s.len()
    &&& label_matches(s[i], label)
    &&& forall|j: int|
        0 <= j < s.len() && label_matches(#[trigger] s[j], label) ==> dist_sq(
            s[i].x as int,
            s[i].y as int,
            cx,
            cy,
        ) <= dist_sq(s[j].x as int, s[j].y as int, cx, cy)
    &&& forall|j: int|
        0 <= j < i && label_matches(#[trigger] s[j], label) ==> dist_sq(
            s[i].x as int,
            s[i].y as int,
            cx,
            cy,
        ) < dist_sq(s[j].x as int, s[j].y as int, cx, cy)
}

/// At most one index can be the first nearest match.
pub proof fn lemma_closest_match_unique(
    s: Seq<DataPoint>,
    cx: int,
    cy: int,
    label: Option<DataLabel>,
    i: int,
    j: int,
)
    requires
        is_closest_match(s, cx, cy, label, i),
        is_closest_match(s, cx, cy, label, j),
    ensures
        i == j,
{
}

/// Smallest x among the points before index `n`, seeded with one negative
/// whole unit.
pub open spec fn fold_min_x(s: Seq<DataPoint>, n: int) -> int
    decreases n,
{
    if n <= 0 {
        -(COORD_SCALE as int)
    } else {
        let m = fold_min_x(s, n - 1);
        let v = s[n - 1].x as int;
        if v < m {
            v
        } else {
            m
        }
    }
}

/// Largest x among the points before index `n`, seeded with one whole unit.
pub open spec fn fold_max_x(s: Seq<DataPoint>, n: int) -> int
    decreases n,
{
    if n <= 0 {
        COORD_SCALE as int
    } else {
        let m = fold_max_x(s, n - 1);
        let v = s[n - 1].x as int;
        if v > m {
            v
        } else {
            m
        }
    }
}

/// Smallest y among the points before index `n`, seeded like `fold_min_x`.
pub open spec fn fold_min_y(s: Seq<DataPoint>, n: int) -> int
    decreases n,
{
    if n <= 0 {
        -(COORD_SCALE as int)
    } else {
        let m = fold_min_y(s, n - 1);
        let v = s[n - 1].y as int;
        if v < m {
            v
        } else {
            m
        }
    }
}

/// Largest y among the points before index `n`, seeded like `fold_max_x`.
pub open spec fn fold_max_y(s: Seq<DataPoint>, n: int) -> int
    decreases n,
{
    if n <= 0 {
        COORD_SCALE as int
    } else {
        let m = fold_max_y(s, n - 1);
        let v = s[n - 1].y as int;
        if v > m {
            v
        } else {
            m
        }
    }
}

/// Lower edge of an axis range after the margin is added.
pub open spec fn margin_low(mn: int, mx: int) -> int {
    mn - (mx - mn) / (MARGIN_DIVISOR as int)
}

/// Upper edge of an axis range after the margin is added.
pub open spec fn margin_high(mn: int, mx: int) -> int {
    mx + (mx - mn) / (MARGIN_DIVISOR as int)
}

/// The bounding box of a point sequence: per-axis minima and maxima seeded
/// with the unit box, each axis range then widened by the margin.
pub open spec fn bbox_with_margin(s: Seq<DataPoint>) -> MinMaxPair {
    let mnx = fold_min_x(s, s.len() as int);
    let mxx = fold_max_x(s, s.len() as int);
    let mny = fold_min_y(s, s.len() as int);
    let mxy = fold_max_y(s, s.len() as int);
    MinMaxPair {
        min_x: margin_low(mnx, mxx) as i64,
        min_y: margin_low(mny, mxy) as i64,
        max_x: margin_high(mnx, mxx) as i64,
        max_y: margin_high(mny, mxy) as i64,
    }
}

proof fn lemma_pow10_pos(k: nat)
    ensures
        pow10_spec(k) >= 1,
    decreases k,
{
    if k > 0 {
        lemma_pow10_pos((k - 1) as nat);
    }
}

proof fn lemma_pow10_bounds(k: nat)
    requires
        k <= 10,
    ensures
        1 <= pow10_spec(k) <= 10_000_000_000,
{
    lemma_pow10_pos(k);
    lemma_pow10_pos((10 - k) as nat);
    lemma_pow10_adds(k, (10 - k) as nat);
    assert(pow10_spec(10) == 10_000_000_000) by {
        reveal_with_fuel(pow10_spec, 11);
    }
    assert(pow10_spec(k) * pow10_spec((10 - k) as nat) >= pow10_spec(k)) by (nonlinear_arith)
        requires
            pow10_spec((10 - k) as nat) >= 1,
            pow10_spec(k) >= 1,
    ;
}

proof fn lemma_pow10_adds(a: nat, b: nat)
    ensures
        pow10_spec(a + b) == pow10_spec(a) * pow10_spec(b),
    decreases a,
{
    if a == 0 {
    } else {
        lemma_pow10_adds((a - 1) as nat, b);
        assert(pow10_spec(a + b) == 10 * pow10_spec((a + b - 1) as nat)) by {
            assert((a + b) != 0);
        }
        assert(10 * (pow10_spec((a - 1) as nat) * pow10_spec(b)) == (10 * pow10_spec(
            (a - 1) as nat,
        )) * pow10_spec(b)) by (nonlinear_arith);
    }
}

/// `MAX_COORD` is a multiple of every power of ten up to the tenth.
proof fn lemma_max_coord_multiple(k: nat)
    requires
        k <= 10,
    ensures
        (MAX_COORD as int) % pow10_spec(k) == 0,
{
    lemma_pow10_adds(k, (17 - k) as nat);
    assert(pow10_spec(17) == MAX_COORD as int) by {
        reveal_with_fuel(pow10_spec, 18);
    }
    lemma_pow10_bounds(k);
    lemma_mod_multiples_basic(pow10_spec((17 - k) as nat), pow10_spec(k));
    assert(pow10_spec(k) * pow10_spec((17 - k) as nat) == pow10_spec((17 - k) as nat) * pow10_spec(
        k,
    )) by (nonlinear_arith);
}

/// Rounding a magnitude below a multiple of `q` stays below that multiple.
proof fn lemma_round_magnitude_bound(m: int, q: int, bound: int)
    requires
        0 <= m <= bound,
        1 <= q,
        bound % q == 0,
    ensures
        0 <= ((m + q / 2) / q) * q <= bound,
{
    let a = m + q / 2;
    lemma_div_pos_is_pos(a, q);
    lemma_mul_nonnegative(a / q, q);
    // q / 2 <= q - 1 follows from the division identity for q / 2.
    lemma_fundamental_div_mod(q, 2);
    lemma_mod_division_less_than_divisor(q, 2);
    // a <= bound + q - 1, so a / q <= (bound + q - 1) / q == bound / q.
    lemma_div_is_ordered(a, bound + q - 1, q);
    assert(bound == q * (bound / q)) by {
        lemma_fundamental_div_mod(bound, q);
    }
    assert((bound / q) * q == q * (bound / q)) by (nonlinear_arith);
    assert(bound + q - 1 == (bound / q) * q + (q - 1));
    lemma_fundamental_div_mod_converse(bound + q - 1, q, bound / q, q - 1);
    lemma_mul_inequality(a / q, bound / q, q);
    assert((bound / q) * q == bound);
}

/// Rounding keeps a coordinate within the accepted range.
proof fn lemma_round_coord_ok(n: int, places: u8)
    requires
        coord_ok(n),
    ensures
        coord_ok(round_coord(n, places)),
{
    if places < MAX_DECIMAL_PLACES {
        let k = (MAX_DECIMAL_PLACES - places) as nat;
        let q = pow10_spec(k);
        lemma_pow10_bounds(k);
        lemma_max_coord_multiple(k);
        if n >= 0 {
            lemma_round_magnitude_bound(n, q, MAX_COORD as int);
        } else {
            lemma_round_magnitude_bound(-n, q, MAX_COORD as int);
        }
    }
}

/// Every coordinate of a stored point is within the accepted range.
pub proof fn lemma_applied_point_ok(x: int, y: int, label: DataLabel, rounding: Option<u8>)
    requires
        coord_ok(x),
        coord_ok(y),
    ensures
        point_ok(applied_point(x, y, label, rounding)),
{
    match rounding {
        Some(places) => {
            lemma_round_coord_ok(x, places);
            lemma_round_coord_ok(y, places);
        },
        None => {},
    }
}

/// Ten to the `k`-th power, as a fixed-point factor.
fn pow10_i64(k: u8) -> (q: i64)
    requires
        k <= 10,
    ensures
        q == pow10_spec(k as nat),
        1 <= q <= 10_000_000_000,
{
    let mut q: i64 = 1;
    let mut j: u8 = 0;
    while j < k
        invariant
            j <= k <= 10,
            q == pow10_spec(j as nat),
        decreases k - j,
    {
        proof {
            lemma_pow10_bounds((j + 1) as nat);
        }
        q = q * 10;
        j = j + 1;
    }
    proof {
        lemma_pow10_bounds(k as nat);
    }
    q
}

/// One coordinate rounded to `places` decimal places.
fn round_coord_i64(n: i64, places: u8) -> (r: i64)
    requires
        coord_ok(n as int),
    ensures
        r as int == round_coord(n as int, places),
        coord_ok(r as int),
{
    proof {
        lemma_round_coord_ok(n as int, places);
    }
    if places >= MAX_DECIMAL_PLACES {
        return n;
    }
    let q = pow10_i64(MAX_DECIMAL_PLACES - places);
    proof {
        lemma_pow10_bounds((MAX_DECIMAL_PLACES - places) as nat);
        lemma_max_coord_multiple((MAX_DECIMAL_PLACES - places) as nat);
    }
    let m: i64 = if n < 0 {
        -n
    } else {
        n
    };
    proof {
        lemma_round_magnitude_bound(m as int, q as int, MAX_COORD as int);
    }
    let mu: u64 = m as u64;
    let qu: u64 = q as u64;
    let t: u64 = ((mu + qu / 2) / qu) * qu;
    if n < 0 {
        -(t as i64)
    } else {
        t as i64
    }
}

/// Squared Euclidean distance between a stored point and a coordinate.
fn distance_squared(px: i64, py: i64, cx: i64, cy: i64) -> (d: i128)
    requires
        coord_ok(px as int),
        coord_ok(py as int),
        coord_ok(cx as int),
        coord_ok(cy as int),
    ensures
        d as int == dist_sq(px as int, py as int, cx as int, cy as int),
{
    let dx: i64 = px - cx;
    let dy: i64 = py - cy;
    proof {
        assert((dx as int) * (dx as int) <= 160_000_000_000_000_000_000_000_000_000_000_000
            && (dx as int) * (dx as int) >= 0) by (nonlinear_arith)
            requires
                -200_000_000_000_000_000 <= dx as int <= 200_000_000_000_000_000,
        ;
        assert((dy as int) * (dy as int) <= 160_000_000_000_000_000_000_000_000_000_000_000
            && (dy as int) * (dy as int) >= 0) by (nonlinear_arith)
            requires
                -200_000_000_000_000_000 <= dy as int <= 200_000_000_000_000_000,
        ;
    }
    (dx as i128) * (dx as i128) + (dy as i128) * (dy as i128)
}

/// Widens one axis range by the margin: a twentieth of the range on each
/// side, a ten percent increase in all.
fn add_margin(mn: i64, mx: i64) -> (r: (i64, i64))
    requires
        -(MAX_COORD as int) <= mn as int <= mx as int <= MAX_COORD as int,
    ensures
        r.0 as int == margin_low(mn as int, mx as int),
        r.1 as int == margin_high(mn as int, mx as int),
{
    let range: i64 = mx - mn;
    let half_diff: i64 = ((range as u64) / 20) as i64;
    proof {
        assert((range as u64) / 20 <= range as u64 / 1) by {
            lemma_div_is_ordered_by_den(range as int);
        }
    }
    (mn - half_diff, mx + half_diff)
}

proof fn lemma_div_is_ordered_by_den(r: int)
    requires
        r >= 0,
    ensures
        r / 20 <= r,
        r / 20 >= 0,
{
    assert(r / 20 <= r && r / 20 >= 0) by (nonlinear_arith)
        requires
            r >= 0,
    ;
}

/// An event owns only points whose coordinates are within range.
pub open spec fn event_ok(e: EventView) -> bool {
    match e {
        EventView::Add { point } => point_ok(point),
        EventView::Delete { index, point } => point_ok(point),
        EventView::Clear { points } => points_ok(points),
    }
}

pub open spec fn events_ok(s: Seq<EventView>) -> bool {
    forall|i: int| 0 <= i < s.len() ==> event_ok(#[trigger] s[i])
}

proof fn lemma_events_ok_trim(s: Seq<EventView>, cap: Option<u16>)
    requires
        events_ok(s),
    ensures
        events_ok(trim_front(s, cap)),
{
    match cap {
        None => {},
        Some(c) => {
            if s.len() > c {
                let t = s.subrange(s.len() - c, s.len() as int);
                assert forall|i: int| 0 <= i < t.len() implies event_ok(#[trigger] t[i]) by {
                    assert(t[i] == s[i + s.len() - c]);
                }
            }
        },
    }
}

/// A user-input condition: expected, recoverable, surfaced as status text.
/// No mutation occurs when one of these is returned.
#[derive(Clone, Copy, PartialEq, Eq, Structural, Debug)]
pub enum InputError {
    /// No coordinate was supplied: the cursor was outside the valid area.
    NoCoordinate,
    /// No point with the requested label exists to delete.
    NothingToDelete,
    /// The requested history side is empty.
    NoHistory,
}

impl InputError {
    /// The user-facing status text for this condition.
    pub fn message(&self) -> (m: &'static str)
        ensures
            *self == InputError::NoCoordinate ==> m@ == "Cursor not detected over the plot"@,
            *self == InputError::NothingToDelete ==> m@
                == "No suitable point available for deleting"@,
            *self == InputError::NoHistory ==> m@ == "No history available"@,
    {
        match self {
            InputError::NoCoordinate => "Cursor not detected over the plot",
            InputError::NothingToDelete => "No suitable point available for deleting",
            InputError::NoHistory => "No history available",
        }
    }
}

/// The point collection: the ordered point sequence, the rounding setting
/// for new points, the undo/redo history, and the bounding-box cache.
pub struct Data {
    points: Vec<DataPoint>,
    /// Controls if / how many decimal places new points are rounded to
    rounding_decimal_places: Option<u8>,
    undo_manager: UndoManager,
    /// Caches the value from `self.points`
    cached_points_min_max: Option<MinMaxPair>,
}

impl Data {
    /// The ordered point sequence; its order is the index space that
    /// `Delete` events record, and is preserved exactly across undo/redo.
    pub closed spec fn points_seq(&self) -> Seq<DataPoint> {
        self.points@
    }

    /// The undo side of the history, oldest first.
    pub closed spec fn undo_history(&self) -> Seq<EventView> {
        self.undo_manager.undo_history()
    }

    /// The redo side of the history, bottom first.
    pub closed spec fn redo_history(&self) -> Seq<EventView> {
        self.undo_manager.redo_history()
    }

    /// The capacity bound on the undo side; `None` means unbounded.
    pub closed spec fn history_capacity(&self) -> Option<u16> {
        self.undo_manager.capacity()
    }

    /// The rounding setting: how many decimal places new points are
    /// rounded to, or `None` when rounding is off.
    pub closed spec fn rounding_setting(&self) -> Option<u8> {
        self.rounding_decimal_places
    }

    /// Well-formedness: coordinates in range everywhere, both history
    /// sides replayable against the current points, the undo side within
    /// its capacity, and the cache never stale.
    pub closed spec fn wf(&self) -> bool {
        &&& points_ok(self.points@)
        &&& events_ok(self.undo_manager.undo_history())
        &&& events_ok(self.undo_manager.redo_history())
        &&& undo_chain_ok(self.undo_manager.undo_history(), self.points@)
        &&& redo_chain_ok(self.undo_manager.redo_history(), self.points@)
        &&& (match self.undo_manager.capacity() {
            Some(c) => self.undo_manager.undo_history().len() <= c,
            None => true,
        })
        &&& (match self.cached_points_min_max {
            Some(m) => m == bbox_with_margin(self.points@),
            None => true,
        })
    }

    /// The collection's settings are untouched by a call.
    pub open spec fn same_settings(pre: Data, post: Data) -> bool {
        post.rounding_setting() == pre.rounding_setting()
            && post.history_capacity() == pre.history_capacity()
    }

    /// Points and both history sides are untouched by a call.
    pub open spec fn same_points_and_history(pre: Data, post: Data) -> bool {
        post.points_seq() == pre.points_seq() && post.undo_history() == pre.undo_history()
            && post.redo_history() == pre.redo_history()
    }

    pub fn points(&self) -> (r: &[DataPoint])
        ensures
            r@ == self.points_seq(),
    {
        self.points.as_slice()
    }

    /// Returns if rounding is enabled
    pub fn is_rounding_enabled(&self) -> (r: bool)
        ensures
            r == self.rounding_setting().is_some(),
    {
        self.rounding_decimal_places.is_some()
    }

    /// The number of decimal places new points are rounded to, when set.
    pub fn rounding_decimal_places(&self) -> (r: Option<u8>)
        ensures
            r == self.rounding_setting(),
    {
        self.rounding_decimal_places
    }

    /// Turns rounding on or off: switching on starts from the default
    /// number of decimal places, switching off forgets the setting, and
    /// a matching state is left as it is.
    pub fn set_rounding_enabled(&mut self, value: bool)
        requires
            old(self).wf(),
        ensures
            final(self).wf(),
            final(self).rounding_setting() == (match (old(self).rounding_setting(), value) {
                (Option::None, true) => Some(DEFAULT_DECIMAL_PLACES_FOR_ROUNDING),
                (Option::Some(_), false) => None::<u8>,
                _ => old(self).rounding_setting(),
            }),
            Data::same_points_and_history(*old(self), *final(self)),
            final(self).history_capacity() == old(self).history_capacity(),
    {
        match (self.rounding_decimal_places, value) {
            (None, true) => {
                self.rounding_decimal_places = Some(DEFAULT_DECIMAL_PLACES_FOR_ROUNDING)
            },
            (Some(_), false) => self.rounding_decimal_places = None,
            (None, false) | (Some(_), true) => (),  // Do nothing already in correct state
        }
    }

    /// Sets the number of decimal places directly, enabling rounding if it
    /// was off. Existing points are never touched: only future adds are
    /// affected.
    pub fn set_rounding_decimal_places(&mut self, value: u8)
        requires
            old(self).wf(),
        ensures
            final(self).wf(),
            final(self).rounding_setting() == Some(value),
            Data::same_points_and_history(*old(self), *final(self)),
            final(self).history_capacity() == old(self).history_capacity(),
    {
        self.rounding_decimal_places = Some(value);
    }

    fn invalidate_cache(&mut self)
        ensures
            final(self).points == old(self).points,
            final(self).rounding_decimal_places == old(self).rounding_decimal_places,
            final(self).undo_manager == old(self).undo_manager,
            final(self).cached_points_min_max is None,
    {
        self.cached_points_min_max = None;
    }

    pub fn is_empty(&self) -> (r: bool)
        ensures
            r == (self.points_seq().len() == 0),
    {
        self.points.len() == 0
    }

    pub fn has_undo(&self) -> (r: bool)
        ensures
            r == (self.undo_history().len() > 0),
    {
        !self.undo_manager.is_undo_empty()
    }

    pub fn has_redo(&self) -> (r: bool)
        ensures
            r == (self.redo_history().len() > 0),
    {
        !self.undo_manager.is_redo_empty()
    }

    pub fn has_history(&self) -> (r: bool)
        ensures
            r == (self.undo_history().len() > 0 || self.redo_history().len() > 0),
    {
        !self.undo_manager.is_empty()
    }

    /// Empties both history sides; an error when there is nothing to clear.
    pub fn clear_history(&mut self) -> (result: Result<(), InputError>)
        requires
            old(self).wf(),
        ensures
            final(self).wf(),
            final(self).points_seq() == old(self).points_seq(),
            Data::same_settings(*old(self), *final(self)),
            old(self).undo_history().len() == 0 && old(self).redo_history().len() == 0 ==> (result
                == Err::<(), InputError>(InputError::NoHistory) && Data::same_points_and_history(
                *old(self),
                *final(self),
            )),
            old(self).undo_history().len() > 0 || old(self).redo_history().len() > 0 ==> (result
                == Ok::<(), InputError>(()) && final(self).undo_history()
                == Seq::<EventView>::empty() && final(self).redo_history()
                == Seq::<EventView>::empty()),
    {
        if self.undo_manager.is_empty() {
            Err(InputError::NoHistory)
        } else {
            self.undo_manager.clear_all();
            Ok(())
        }
    }

    /// Sets the history capacity, evicting oldest undo entries down to a
    /// newly finite bound at once. The redo side is untouched.
    pub fn set_history_size(&mut self, value: Option<u16>)
        requires
            old(self).wf(),
        ensures
            final(self).wf(),
            final(self).history_capacity() == value,
            final(self).undo_history() == trim_front(old(self).undo_history(), value),
            final(self).redo_history() == old(self).redo_history(),
            final(self).points_seq() == old(self).points_seq(),
            final(self).rounding_setting() == old(self).rounding_setting(),
    {
        proof {
            lemma_undo_chain_ok_trim(self.undo_manager.undo_history(), self.points@, value);
            lemma_events_ok_trim(self.undo_manager.undo_history(), value);
        }
        self.undo_manager.set_max_history_size(value);
    }

    /// Finds the point nearest to `(cx, cy)` among those whose label
    /// matches, keeping the first of equally near candidates.
    fn get_closest_point(&self, cx: i64, cy: i64, label: Option<DataLabel>) -> (r: Option<usize>)
        requires
            points_ok(self.points@),
            coord_ok(cx as int),
            coord_ok(cy as int),
        ensures
            match r {
                None => forall|j: int|
                    0 <= j < self.points@.len() ==> !label_matches(#[trigger] self.points@[j], label),
                Some(i) => is_closest_match(self.points@, cx as int, cy as int, label, i as int),
            },
    {
        let mut result: Option<usize> = None;
        let mut min_distance: i128 = 0;
        let mut i: usize = 0;
        while i < self.points.len()
            invariant
                i <= self.points@.len(),
                points_ok(self.points@),
                coord_ok(cx as int),
                coord_ok(cy as int),
                match result {
                    None => forall|j: int|
                        0 <= j < i ==> !label_matches(#[trigger] self.points@[j], label),
                    Some(b) => {
                        &&& b < i
                        &&& label_matches(self.points@[b as int], label)
                        &&& min_distance as int == dist_sq(
                            self.points@[b as int].x as int,
                            self.points@[b as int].y as int,
                            cx as int,
                            cy as int,
                        )
                        &&& forall|j: int|
                            0 <= j < i && label_matches(#[trigger] self.points@[j], label)
                                ==> min_distance as int <= dist_sq(
                                self.points@[j].x as int,
                                self.points@[j].y as int,
                                cx as int,
                                cy as int,
                            )
                        &&& forall|j: int|
                            0 <= j < b && label_matches(#[trigger] self.points@[j], label)
                                ==> (min_distance as int) < dist_sq(
                                self.points@[j].x as int,
                                self.points@[j].y as int,
                                cx as int,
                                cy as int,
                            )
                    },
                },
            decreases self.points@.len() - i,
        {
            let p = self.points[i];
            let matches_label = match label {
                None => true,
                Some(l) => p.label == l,
            };
            if matches_label {
                let d = distance_squared(p.x, p.y, cx, cy);
                let better = match result {
                    None => true,
                    Some(_) => d < min_distance,
                };
                if better {
                    result = Some(i);
                    min_distance = d;
                }
            }
            i = i + 1;
        }
        result
    }

    /// Adds a point at the supplied coordinate with the supplied label.
    /// When rounding is enabled the coordinate is rounded first, and the
    /// recorded event stores the already-rounded point, so an undo removes
    /// precisely what was added. Without a coordinate nothing changes.
    pub fn add(&mut self, pointer_coordinate: Option<(i64, i64)>, label: DataLabel) -> (result:
        Result<(), InputError>)
        requires
            old(self).wf(),
            match pointer_coordinate {
                Some(c) => coord_ok(c.0 as int) && coord_ok(c.1 as int),
                None => true,
            },
        ensures
            final(self).wf(),
            Data::same_settings(*old(self), *final(self)),
            match pointer_coordinate {
                None => result == Err::<(), InputError>(InputError::NoCoordinate)
                    && Data::same_points_and_history(*old(self), *final(self)),
                Some(c) => ({
                    let p = applied_point(
                        c.0 as int,
                        c.1 as int,
                        label,
                        old(self).rounding_setting(),
                    );
                    &&& result == Ok::<(), InputError>(())
                    &&& records_mutation(
                        (EventView::Add { point: p }),
                        old(self).points_seq(),
                        final(self).points_seq(),
                    )
                    &&& final(self).points_seq() == old(self).points_seq().push(p)
                    &&& final(self).undo_history() == trim_front(
                        old(self).undo_history().push((EventView::Add { point: p })),
                        old(self).history_capacity(),
                    )
                    &&& final(self).redo_history() == Seq::<EventView>::empty()
                }),
            },
    {
        if let Some(pointer_coord) = pointer_coordinate {
            self.invalidate_cache();
            let mut x: i64 = pointer_coord.0;
            let mut y: i64 = pointer_coord.1;
            if let Some(desired_decimal_places) = self.rounding_decimal_places {
                x = round_coord_i64(x, desired_decimal_places);
                y = round_coord_i64(y, desired_decimal_places);
            }
            let new_point = DataPoint { x, y, label };
            let ghost p = applied_point(
                pointer_coord.0 as int,
                pointer_coord.1 as int,
                label,
                self.rounding_decimal_places,
            );
            proof {
                lemma_applied_point_ok(
                    pointer_coord.0 as int,
                    pointer_coord.1 as int,
                    label,
                    self.rounding_decimal_places,
                );
                assert(new_point == p);
            }
            let ghost undo0 = self.undo_manager.undo_history();
            let ghost pts0 = self.points@;
            let event = Event::Add(AddEventData { point: new_point });
            self.undo_manager.add_undo(event);
            self.points.push(new_point);  // Actual add action
            proof {
                let ev = EventView::Add { point: p };
                assert(event@ == ev);
                assert(self.points@.drop_last() =~= pts0);
                assert(undo0.push(ev).drop_last() =~= undo0);
                assert(undo_chain_ok(undo0.push(ev), self.points@));
                lemma_undo_chain_ok_trim(undo0.push(ev), self.points@, self.undo_manager.capacity());
                assert forall|i: int| 0 <= i < undo0.push(ev).len() implies event_ok(
                    #[trigger] undo0.push(ev)[i],
                ) by {
                    if i < undo0.len() {
                        assert(undo0.push(ev)[i] == undo0[i]);
                    }
                }
                lemma_events_ok_trim(undo0.push(ev), self.undo_manager.capacity());
            }
            Ok(())
        } else {
            Err(InputError::NoCoordinate)
        }
    }

    /// Deletes the point nearest to the supplied coordinate among those
    /// with the supplied label; ties keep the lowest original index. An
    /// error, and no mutation, when there is no coordinate or no
    /// matching point.
    pub fn delete(&mut self, pointer_coordinate: Option<(i64, i64)>, label: DataLabel) -> (result:
        Result<(), InputError>)
        requires
            old(self).wf(),
            match pointer_coordinate {
                Some(c) => coord_ok(c.0 as int) && coord_ok(c.1 as int),
                None => true,
            },
        ensures
            final(self).wf(),
            Data::same_settings(*old(self), *final(self)),
            match pointer_coordinate {
                None => result == Err::<(), InputError>(InputError::NoCoordinate)
                    && Data::same_points_and_history(*old(self), *final(self)),
                Some(c) => (if exists|j: int|
                    0 <= j < old(self).points_seq().len() && (#[trigger] old(
                        self,
                    ).points_seq()[j]).label == label {
                    exists|i: int|
                        {
                            &&& #[trigger] is_closest_match(
                                old(self).points_seq(),
                                c.0 as int,
                                c.1 as int,
                                Some(label),
                                i,
                            )
                            &&& result == Ok::<(), InputError>(())
                            &&& records_mutation(
                                (EventView::Delete { index: i, point: old(self).points_seq()[i] }),
                                old(self).points_seq(),
                                final(self).points_seq(),
                            )
                            &&& final(self).points_seq() == old(self).points_seq().remove(i)
                            &&& final(self).undo_history() == trim_front(
                                old(self).undo_history().push(
                                    (EventView::Delete {
                                        index: i,
                                        point: old(self).points_seq()[i],
                                    }),
                                ),
                                old(self).history_capacity(),
                            )
                            &&& final(self).redo_history() == Seq::<EventView>::empty()
                        }
                } else {
                    result == Err::<(), InputError>(InputError::NothingToDelete)
                        && Data::same_points_and_history(*old(self), *final(self))
                }),
            },
    {
        let index_closest_point: Option<usize>;
        if let Some(pointer_coord) = pointer_coordinate {
            index_closest_point = self.get_closest_point(
                pointer_coord.0,
                pointer_coord.1,
                Some(label),
            );
        } else {
            return Err(InputError::NoCoordinate);
        }
        if let Some(index) = index_closest_point {
            self.invalidate_cache();
            let ghost undo0 = self.undo_manager.undo_history();
            let ghost pts0 = self.points@;
            let removed_point = self.points.remove(index);  // Actual delete action
            let event = Event::Delete(DeleteEventData { index, point: removed_point });
            self.undo_manager.add_undo(event);
            proof {
                let ev = EventView::Delete { index: index as int, point: pts0[index as int] };
                assert(event@ == ev);
                assert(self.points@.insert(index as int, pts0[index as int]) =~= pts0);
                assert(undo0.push(ev).drop_last() =~= undo0);
                assert(undo_chain_ok(undo0.push(ev), self.points@));
                lemma_undo_chain_ok_trim(undo0.push(ev), self.points@, self.undo_manager.capacity());
                assert forall|i: int| 0 <= i < undo0.push(ev).len() implies event_ok(
                    #[trigger] undo0.push(ev)[i],
                ) by {
                    if i < undo0.len() {
                        assert(undo0.push(ev)[i] == undo0[i]);
                    }
                }
                lemma_events_ok_trim(undo0.push(ev), self.undo_manager.capacity());
                assert forall|i: int| 0 <= i < self.points@.len() implies point_ok(
                    #[trigger] self.points@[i],
                ) by {
                    if i < index {
                        assert(self.points@[i] == pts0[i]);
                    } else {
                        assert(self.points@[i] == pts0[i + 1]);
                    }
                }
            }
            Ok(())
        } else {
            Err(InputError::NothingToDelete)
        }
    }

    /// Removes every point, moving the whole sequence into the recorded
    /// event — a single ownership transfer, so an undo hands it back.
    pub fn clear_points(&mut self)
        requires
            old(self).wf(),
        ensures
            final(self).wf(),
            Data::same_settings(*old(self), *final(self)),
            final(self).points_seq() == Seq::<DataPoint>::empty(),
            records_mutation(
                (EventView::Clear { points: old(self).points_seq() }),
                old(self).points_seq(),
                final(self).points_seq(),
            ),
            final(self).undo_history() == trim_front(
                old(self).undo_history().push(
                    (EventView::Clear { points: old(self).points_seq() }),
                ),
                old(self).history_capacity(),
            ),
            final(self).redo_history() == Seq::<EventView>::empty(),
    {
        self.invalidate_cache();
        let ghost undo0 = self.undo_manager.undo_history();
        let ghost pts0 = self.points@;
        let mut event_data = ClearEventData { points: Vec::new() };
        core::mem::swap(&mut self.points, &mut event_data.points);  // Move points into event_data for possible restoration
        let event = Event::Clear(event_data);
        self.undo_manager.add_undo(event);
        proof {
            let ev = EventView::Clear { points: pts0 };
            assert(event@ == ev);
            assert(self.points@ =~= Seq::<DataPoint>::empty());
            assert(undo0.push(ev).drop_last() =~= undo0);
            assert(undo_chain_ok(undo0.push(ev), self.points@));
            lemma_undo_chain_ok_trim(undo0.push(ev), self.points@, self.undo_manager.capacity());
            assert forall|i: int| 0 <= i < undo0.push(ev).len() implies event_ok(
                #[trigger] undo0.push(ev)[i],
            ) by {
                if i < undo0.len() {
                    assert(undo0.push(ev)[i] == undo0[i]);
                }
            }
            lemma_events_ok_trim(undo0.push(ev), self.undo_manager.capacity());
        }
    }

    /// Undoes the last change to the data; an error if there is none.
    /// The undone event moves to the redo side, a cleared sequence moving
    /// back out of the event into the collection.
    pub fn undo(&mut self) -> (result: Result<(), InputError>)
        requires
            old(self).wf(),
        ensures
            final(self).wf(),
            Data::same_settings(*old(self), *final(self)),
            old(self).undo_history().len() == 0 ==> result == Err::<(), InputError>(
                InputError::NoHistory,
            ) && Data::same_points_and_history(*old(self), *final(self)),
            old(self).undo_history().len() > 0 ==> ({
                let e = old(self).undo_history().last();
                &&& result == Ok::<(), InputError>(())
                &&& undo_applicable(e, old(self).points_seq())
                &&& final(self).points_seq() == undo_apply(e, old(self).points_seq())
                &&& final(self).undo_history() == old(self).undo_history().drop_last()
                &&& final(self).redo_history() == old(self).redo_history().push(undone_form(e))
            }),
    {
        if self.undo_manager.is_undo_empty() {
            return Err(InputError::NoHistory);
        }
        self.invalidate_cache();
        let ghost pts0 = self.points@;
        let ghost redo0 = self.undo_manager.redo_history();
        let event = self.undo_manager.undo();
        let ghost e = event@;
        proof {
            lemma_undo_then_redo(e, pts0);
        }
        match event {
            Event::Add(data) => {
                self.points.pop();
                proof {
                    assert(self.points@ =~= undo_apply(e, pts0));
                }
                self.undo_manager.record_undone(Event::Add(data));
            },
            Event::Delete(data) => {
                self.points.insert(data.index, data.point);
                self.undo_manager.record_undone(Event::Delete(data));
            },
            Event::Clear(data) => {
                self.points = data.points;
                let replacement = Event::Clear(ClearEventData { points: Vec::new() });
                proof {
                    assert(replacement@ =~= undone_form(e));
                }
                self.undo_manager.record_undone(replacement);
            },
        }
        proof {
            assert(final(self).redo_history() =~= redo0.push(undone_form(e)));
            assert(redo0.push(undone_form(e)).drop_last() =~= redo0);
            assert forall|i: int| 0 <= i < redo0.push(undone_form(e)).len() implies event_ok(
                #[trigger] redo0.push(undone_form(e))[i],
            ) by {
                if i < redo0.len() {
                    assert(redo0.push(undone_form(e))[i] == redo0[i]);
                }
            }
            match e {
                EventView::Add { point } => {
                    assert forall|i: int| 0 <= i < self.points@.len() implies point_ok(
                        #[trigger] self.points@[i],
                    ) by {
                        assert(self.points@[i] == pts0[i]);
                    }
                },
                EventView::Delete { index, point } => {
                    assert forall|i: int| 0 <= i < self.points@.len() implies point_ok(
                        #[trigger] self.points@[i],
                    ) by {
                        if i < index {
                            assert(self.points@[i] == pts0[i]);
                        } else if i > index {
                            assert(self.points@[i] == pts0[i - 1]);
                        }
                    }
                },
                EventView::Clear { points } => {},
            }
        }
        Ok(())
    }

    /// Redoes the last change undone; an error if there is none. The
    /// redone event moves back to the undo side, a redone clear taking
    /// ownership of the points it removes again.
    pub fn redo(&mut self) -> (result: Result<(), InputError>)
        requires
            old(self).wf(),
        ensures
            final(self).wf(),
            Data::same_settings(*old(self), *final(self)),
            old(self).redo_history().len() == 0 ==> result == Err::<(), InputError>(
                InputError::NoHistory,
            ) && Data::same_points_and_history(*old(self), *final(self)),
            old(self).redo_history().len() > 0 ==> ({
                let e = old(self).redo_history().last();
                &&& result == Ok::<(), InputError>(())
                &&& redo_applicable(e, old(self).points_seq())
                &&& final(self).points_seq() == redo_apply(e, old(self).points_seq())
                &&& final(self).redo_history() == old(self).redo_history().drop_last()
                &&& final(self).undo_history() == trim_front(
                    old(self).undo_history().push(redone_form(e, old(self).points_seq())),
                    old(self).history_capacity(),
                )
            }),
    {
        if self.undo_manager.is_redo_empty() {
            return Err(InputError::NoHistory);
        }
        self.invalidate_cache();
        let ghost pts0 = self.points@;
        let ghost undo0 = self.undo_manager.undo_history();
        let event = self.undo_manager.redo();
        let ghost e = event@;
        proof {
            lemma_redo_then_undo(e, pts0);
        }
        match event {
            Event::Add(data) => {
                self.points.push(data.point);
                self.undo_manager.record_redone(Event::Add(data));
            },
            Event::Delete(data) => {
                self.points.remove(data.index);
                self.undo_manager.record_redone(Event::Delete(data));
            },
            Event::Clear(data) => {
                let mut taken: Vec<DataPoint> = data.points;
                core::mem::swap(&mut self.points, &mut taken);
                let replacement = Event::Clear(ClearEventData { points: taken });
                proof {
                    assert(self.points@ =~= redo_apply(e, pts0));
                    assert(replacement@ =~= redone_form(e, pts0));
                }
                self.undo_manager.record_redone(replacement);
            },
        }
        proof {
            let ev = redone_form(e, pts0);
            assert(final(self).undo_history() == trim_front(
                undo0.push(ev),
                self.undo_manager.capacity(),
            ));
            assert(undo0.push(ev).drop_last() =~= undo0);
            assert(undo_chain_ok(undo0.push(ev), self.points@));
            lemma_undo_chain_ok_trim(undo0.push(ev), self.points@, self.undo_manager.capacity());
            assert forall|i: int| 0 <= i < undo0.push(ev).len() implies event_ok(
                #[trigger] undo0.push(ev)[i],
            ) by {
                if i < undo0.len() {
                    assert(undo0.push(ev)[i] == undo0[i]);
                }
            }
            lemma_events_ok_trim(undo0.push(ev), self.undo_manager.capacity());
            match e {
                EventView::Add { point } => {
                    assert forall|i: int| 0 <= i < self.points@.len() implies point_ok(
                        #[trigger] self.points@[i],
                    ) by {
                        if i < pts0.len() {
                            assert(self.points@[i] == pts0[i]);
                        }
                    }
                },
                EventView::Delete { index, point } => {
                    assert forall|i: int| 0 <= i < self.points@.len() implies point_ok(
                        #[trigger] self.points@[i],
                    ) by {
                        if i < index {
                            assert(self.points@[i] == pts0[i]);
                        } else {
                            assert(self.points@[i] == pts0[i + 1]);
                        }
                    }
                },
                EventView::Clear { points } => {},
            }
        }
        Ok(())
    }

    /// The bounding box of the point sequence with its margin: computed
    /// from scratch when no cached value is present, then memoized. This
    /// is a pure query with a memoizing side effect; only mutations
    /// invalidate the cache.
    pub fn get_points_min_max_w_margin(&mut self) -> (result: MinMaxPair)
        requires
            old(self).wf(),
        ensures
            final(self).wf(),
            result == bbox_with_margin(old(self).points_seq()),
            Data::same_points_and_history(*old(self), *final(self)),
            Data::same_settings(*old(self), *final(self)),
    {
        if let Some(result) = self.cached_points_min_max {
            result
        } else {
            let mut min_x: i64 = -COORD_SCALE;
            let mut max_x: i64 = COORD_SCALE;
            let mut min_y: i64 = -COORD_SCALE;
            let mut max_y: i64 = COORD_SCALE;
            let mut i: usize = 0;
            while i < self.points.len()
                invariant
                    i <= self.points@.len(),
                    points_ok(self.points@),
                    min_x as int == fold_min_x(self.points@, i as int),
                    max_x as int == fold_max_x(self.points@, i as int),
                    min_y as int == fold_min_y(self.points@, i as int),
                    max_y as int == fold_max_y(self.points@, i as int),
                    -(MAX_COORD as int) <= min_x as int <= -(COORD_SCALE as int),
                    COORD_SCALE as int <= max_x as int <= MAX_COORD as int,
                    -(MAX_COORD as int) <= min_y as int <= -(COORD_SCALE as int),
                    COORD_SCALE as int <= max_y as int <= MAX_COORD as int,
                decreases self.points@.len() - i,
            {
                let point = self.points[i];
                if point.x < min_x {
                    min_x = point.x;
                }
                if point.x > max_x {
                    max_x = point.x;
                }
                if point.y < min_y {
                    min_y = point.y;
                }
                if point.y > max_y {
                    max_y = point.y;
                }
                i = i + 1;
            }
            // Add Margin
            let x_pair: (i64, i64) = add_margin(min_x, max_x);
            let y_pair: (i64, i64) = add_margin(min_y, max_y);
            let result = MinMaxPair {
                min_x: x_pair.0,
                min_y: y_pair.0,
                max_x: x_pair.1,
                max_y: y_pair.1,
            };
            self.cached_points_min_max = Some(result);  // Store in cache
            result
        }
    }

    pub fn max_history_size(&self) -> (r: Option<u16>)
        ensures
            r == self.history_capacity(),
    {
        self.undo_manager.max_history_size()
    }

    pub fn get_default_max_history_size(&self) -> (r: Option<u16>)
        ensures
            r == Some(DEFAULT_MAX_HISTORY),
    {
        UndoManager::default_max_history()
    }
}

impl Default for Data {
    fn default() -> (d: Self)
        ensures
            d.wf(),
            d.points_seq() == Seq::<DataPoint>::empty(),
            d.rounding_setting() is None,
            d.undo_history() == Seq::<EventView>::empty(),
            d.redo_history() == Seq::<EventView>::empty(),
            d.history_capacity() == Some(DEFAULT_MAX_HISTORY),
    {
        let d = Data {
            points: Vec::new(),
            rounding_decimal_places: None,
            undo_manager: Default::default(),
            cached_points_min_max: None,
        };
        d
    }
}

} // verus!
